use promplot::{derive_label, extract_series, sort_pairs, str_eq, str_lt, LabelPair, RawSeries, Sample};

fn pair(k: &str, v: &str) -> LabelPair {
    LabelPair { key: k.to_string(), value: v.to_string() }
}

#[test]
fn label_full_form() {
    let labels = vec![
        pair("__name__", "cpu_usage"),
        pair("zone", "east"),
        pair("app", "web"),
        pair("note", ""),
    ];
    let label = derive_label(&labels);
    assert_eq!(label, "cpu_usage(app=web,zone=east)");
}

#[test]
fn label_name_only() {
    let labels = vec![pair("__name__", "up")];
    assert_eq!(derive_label(&labels), "up");
}

#[test]
fn label_missing_name_defaults_empty() {
    let labels = vec![pair("job", "node")];
    assert_eq!(derive_label(&labels), "(job=node)");
}

#[test]
fn label_empty_values_filtered() {
    let labels = vec![pair("__name__", "m"), pair("a", ""), pair("b", "x")];
    assert_eq!(derive_label(&labels), "m(b=x)");
}

#[test]
fn label_order_independent() {
    let a = vec![pair("__name__", "m"), pair("b", "2"), pair("a", "1"), pair("c", "")];
    let b = vec![pair("c", ""), pair("a", "1"), pair("__name__", "m"), pair("b", "2")];
    assert_eq!(derive_label(&a), derive_label(&b));
    assert_eq!(derive_label(&a), "m(a=1,b=2)");
}

#[test]
fn sort_pairs_by_key_then_value() {
    let sorted = sort_pairs(vec![pair("b", "1"), pair("a", "2"), pair("a", "1")]);
    let flat: Vec<(String, String)> =
        sorted.into_iter().map(|p| (p.key, p.value)).collect();
    assert_eq!(
        flat,
        vec![
            ("a".to_string(), "1".to_string()),
            ("a".to_string(), "2".to_string()),
            ("b".to_string(), "1".to_string()),
        ]
    );
}

#[test]
fn string_order() {
    assert!(str_lt("abc", "abd"));
    assert!(str_lt("ab", "abc"));
    assert!(!str_lt("abc", "abc"));
    assert!(!str_lt("b", "abc"));
    assert!(str_eq("abc", "abc"));
    assert!(!str_eq("abc", "abd"));
}

#[test]
fn extract_empty_input_yields_no_series() {
    let out = extract_series(&vec![]);
    assert!(out.is_empty());
}

#[test]
fn extract_drops_pointless_series_and_keeps_order() {
    let input = vec![
        RawSeries {
            labels: vec![pair("__name__", "a")],
            samples: vec![Sample { ts: 0, val: 1000 }],
        },
        RawSeries { labels: vec![pair("__name__", "b")], samples: vec![] },
        RawSeries {
            labels: vec![pair("__name__", "c")],
            samples: vec![Sample { ts: 0, val: 2000 }, Sample { ts: 1000, val: 3000 }],
        },
    ];
    let out = extract_series(&input);
    assert_eq!(out.len(), 2);
    assert_eq!(out[0].label, "a");
    assert_eq!(out[0].points.len(), 1);
    assert_eq!(out[1].label, "c");
    assert_eq!(out[1].points, vec![Sample { ts: 0, val: 2000 }, Sample { ts: 1000, val: 3000 }]);
}

#[test]
fn stats_over_own_points() {
    let s = promplot::Series {
        label: "x".to_string(),
        points: vec![
            Sample { ts: 0, val: 3000 },
            Sample { ts: 1000, val: 1000 },
            Sample { ts: 2000, val: 2000 },
        ],
    };
    let st = s.stats();
    assert_eq!(st.min_val, 1000);
    assert_eq!(st.max_val, 3000);
    assert_eq!(st.last, 2000);
}
