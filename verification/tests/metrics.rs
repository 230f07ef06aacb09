use elinor::errors::ElinorError;
use elinor::metrics::{format_metric, usize_to_string, Metric};

#[test]
fn metric_from_str_examples() {
    assert_eq!("hits".parse::<Metric>(), Ok(Metric::Hits { k: 0 }));
    assert_eq!("hits@3".parse::<Metric>(), Ok(Metric::Hits { k: 3 }));
}

#[test]
fn metric_to_string_examples() {
    assert_eq!(Metric::Hits { k: 0 }.to_string(), "hits");
    assert_eq!(Metric::Hits { k: 3 }.to_string(), "hits@3");
}

#[test]
fn metric_conversion_table() {
    let table = vec![
        (Metric::Hits { k: 0 }, "hits"),
        (Metric::Success { k: 0 }, "success"),
        (Metric::Precision { k: 0 }, "precision"),
        (Metric::Recall { k: 0 }, "recall"),
        (Metric::F1 { k: 0 }, "f1"),
        (Metric::AP { k: 0 }, "ap"),
        (Metric::RR { k: 0 }, "rr"),
        (Metric::DCG { k: 0 }, "dcg"),
        (Metric::NDCG { k: 0 }, "ndcg"),
        (Metric::DCGBurges { k: 0 }, "dcg_burges"),
        (Metric::NDCGBurges { k: 0 }, "ndcg_burges"),
    ];
    for (metric, text) in table {
        assert_eq!(metric.to_string(), text);
        assert_eq!(metric.name(), text);
        assert_eq!(text.parse::<Metric>(), Ok(metric));
    }
}

#[test]
fn metric_parse_format_round_trip() {
    let metrics = vec![
        Metric::Precision { k: 10 },
        Metric::NDCGBurges { k: 1000 },
        Metric::RR { k: 7 },
        Metric::F1 { k: 0 },
        Metric::AP { k: usize::MAX },
    ];
    for m in metrics {
        assert_eq!(Metric::parse_metric(&m.to_string()), Ok(m));
    }
}

#[test]
fn metric_k_and_name() {
    let m = Metric::NDCG { k: 5 };
    assert_eq!(m.k(), 5);
    assert_eq!(m.name(), "ndcg");
}

#[test]
fn metric_parse_leading_zeros() {
    assert_eq!("ap@007".parse::<Metric>(), Ok(Metric::AP { k: 7 }));
}

#[test]
fn metric_parse_errors() {
    for text in ["", "@3", "hits@", "hits@x", "hits@1@2", "Hits", "map", "hits 3", "hits@-1", "hits@99999999999999999999999"] {
        assert_eq!(
            text.parse::<Metric>(),
            Err(ElinorError::InvalidFormat(text.to_string())),
            "{}",
            text
        );
    }
}

#[test]
fn format_metric_values() {
    assert_eq!(format_metric("precision", 0), "precision");
    assert_eq!(format_metric("precision", 25), "precision@25");
}

#[test]
fn usize_to_string_values() {
    assert_eq!(usize_to_string(0), "0");
    assert_eq!(usize_to_string(9), "9");
    assert_eq!(usize_to_string(10), "10");
    assert_eq!(usize_to_string(1234567), "1234567");
    assert_eq!(usize_to_string(usize::MAX), usize::MAX.to_string());
}

#[test]
fn parse_metrics_keeps_first_occurrences() {
    let texts: Vec<String> = ["ndcg@10", "ap", "ndcg@10", "precision@5", "ap@0"]
        .iter()
        .map(|t| t.to_string())
        .collect();
    assert_eq!(
        elinor::metrics::parse_metrics(&texts),
        Ok(vec![Metric::NDCG { k: 10 }, Metric::AP { k: 0 }, Metric::Precision { k: 5 }])
    );
}

#[test]
fn parse_metrics_first_error() {
    let texts: Vec<String> = ["ap", "bad@1", "worse"].iter().map(|t| t.to_string()).collect();
    assert_eq!(
        elinor::metrics::parse_metrics(&texts),
        Err(ElinorError::InvalidFormat("bad@1".to_string()))
    );
}

#[test]
fn default_metrics_list() {
    let texts: Vec<String> = elinor::metrics::default_metrics().iter().map(|m| m.to_string()).collect();
    assert_eq!(
        texts,
        vec![
            "success@1", "success@5", "success@10", "recall@5", "recall@10", "recall@15",
            "recall@20", "precision@5", "precision@10", "precision@15", "precision@20", "ap@5",
            "ap@10", "ap@15", "ap@20", "ndcg@5", "ndcg@10", "ndcg@15", "ndcg@20", "rr",
        ]
    );
}

#[test]
fn metric_from_str_with_zero_cutoff() {
    for (text, metric) in [
        ("hits@0", Metric::Hits { k: 0 }),
        ("success@100", Metric::Success { k: 100 }),
        ("ndcg_burges@1", Metric::NDCGBurges { k: 1 }),
        ("dcg_burges@0", Metric::DCGBurges { k: 0 }),
        ("recall@1", Metric::Recall { k: 1 }),
    ] {
        assert_eq!(text.parse::<Metric>(), Ok(metric));
    }
}

#[test]
fn common_metrics_in_order_of_first() {
    let s = |v: &[&str]| v.iter().map(|x| x.to_string()).collect::<Vec<String>>();
    let names = vec![
        s(&["ndcg@5", "ap", "rr", "precision@5"]),
        s(&["rr", "ndcg@5", "precision@5"]),
        s(&["precision@5", "ndcg@5", "recall"]),
    ];
    assert_eq!(elinor::metrics::common_metrics(&names), s(&["ndcg@5", "precision@5"]));
    assert_eq!(elinor::metrics::common_metrics(&names[..1]), names[0]);
    let disjoint = vec![s(&["ap"]), s(&["rr"])];
    assert!(elinor::metrics::common_metrics(&disjoint).is_empty());
}
