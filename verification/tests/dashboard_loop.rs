use promplot::{
    check_result, dashboard_plan, dec_string, fixed_string, merge_snapshot, next_action,
    query_window, should_quit, to_seconds, FetchError, LoopAction, Sample, Series,
};

fn sample(ts: i64, val: i64) -> Sample {
    Sample { ts, val }
}

#[test]
fn decimal_text() {
    assert_eq!(dec_string(0), "0");
    assert_eq!(dec_string(7), "7");
    assert_eq!(dec_string(120), "120");
    assert_eq!(dec_string(98765), "98765");
}

#[test]
fn fixed_point_text_two_decimals() {
    assert_eq!(fixed_string(0), "0.00");
    assert_eq!(fixed_string(1234), "1.23");
    assert_eq!(fixed_string(1235), "1.24");
    assert_eq!(fixed_string(-5000), "-5.00");
    assert_eq!(fixed_string(105_000), "105.00");
}

#[test]
fn seconds_of_fixed_point_timestamps() {
    assert_eq!(to_seconds(1_999), 1);
    assert_eq!(to_seconds(-1_999), -1);
    assert_eq!(to_seconds(60_000), 60);
}

#[test]
fn loop_quits_on_quit_key_only() {
    assert!(should_quit('q', true));
    assert!(!should_quit('q', false));
    assert!(!should_quit('x', true));
}

#[test]
fn loop_action_order() {
    assert_eq!(next_action(true, 99_999, 100), LoopAction::Quit);
    assert_eq!(next_action(false, 100, 100), LoopAction::Refetch);
    assert_eq!(next_action(false, 99, 100), LoopAction::Redraw);
}

#[test]
fn failed_fetch_keeps_previous_snapshot() {
    let current = vec![Series { label: "a".to_string(), points: vec![sample(0, 1000)] }];
    let kept = merge_snapshot(current, None);
    assert_eq!(kept.len(), 1);
    assert_eq!(kept[0].label, "a");
    let replaced = merge_snapshot(kept, Some(vec![]));
    assert!(replaced.is_empty());
}

#[test]
fn query_window_spans_lookback() {
    let (start, end) = query_window(1_000_000, 2);
    assert_eq!(start, 999_880);
    assert_eq!(end, 1_000_000);
}

#[test]
fn fetch_classification() {
    assert_eq!(check_result(true, 3), Ok(()));
    assert_eq!(check_result(false, 3), Err(FetchError::NotMatrix));
    assert_eq!(check_result(true, 0), Err(FetchError::EmptyResult));
    assert_eq!(FetchError::NotMatrix.message(), "range vector not found");
    assert_eq!(FetchError::EmptyResult.message(), "empty result");
}

#[test]
fn dashboard_empty_snapshot_plans_nothing() {
    assert!(dashboard_plan(&vec![], "up", 30).is_none());
}

#[test]
fn dashboard_frame_contents() {
    let series = vec![
        Series {
            label: "cpu".to_string(),
            points: vec![sample(0, 1000), sample(30_000, 3000), sample(60_000, 2000)],
        },
        Series { label: "mem".to_string(), points: vec![sample(10_000, 50_000)] },
    ];
    let plan = dashboard_plan(&series, "up", 30).expect("snapshot has series");
    assert_eq!(plan.x_lo, 0);
    assert_eq!(plan.x_hi, 60_000);
    assert_eq!(plan.y_lo, 1000 - (50_000 - 1000) / 20);
    assert_eq!(plan.y_hi, 50_000 + (50_000 - 1000) / 20);
    assert_eq!(plan.title, " up | refresh: 30s | press q to quit ");
    assert_eq!(plan.legend.len(), 2);
    assert_eq!(plan.legend[0].color, (0, 252, 0));
    assert_eq!(plan.legend[0].text, "cpu | min: 1.00  max: 3.00  last: 2.00");
    assert_eq!(plan.legend[1].color, (252, 0, 0));
    assert_eq!(plan.legend[1].text, "mem | min: 50.00  max: 50.00  last: 50.00");
    assert_eq!(plan.y_label_lo, fixed_string(plan.y_lo));
    assert_eq!(plan.y_label_hi, fixed_string(plan.y_hi));
    assert!(!plan.x_label_lo.is_empty());
    assert!(!plan.x_label_mid.is_empty());
    assert!(!plan.x_label_hi.is_empty());
}

#[test]
fn legend_panel_height() {
    assert_eq!(promplot::legend_height(2, 30), 4);
    assert_eq!(promplot::legend_height(20, 30), 10);
    assert_eq!(promplot::legend_height(0, 300), 2);
}
