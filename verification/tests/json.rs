use elinor::errors::ElinorError;
use elinor::json::{
    json_from_str, parse_qrels_from_json, parse_run_from_json, qrels_from_json_value, run_from_json_value, JsonValue,
};
use elinor::pred_score_from_bits;

#[test]
fn qrels_from_json_example() {
    let data = r#"
{
    "q_1": {
        "d_1": 1,
        "d_2": 0,
        "d_3": 2
    },
    "q_2": {
        "d_2": 2,
        "d_4": 1
    }
}"#;
    let qrels = parse_qrels_from_json(data).unwrap();
    assert_eq!(qrels.name(), None);
    assert_eq!(
        qrels.get_rel_map("q_1"),
        Some(&vec![("d_1".to_string(), 1), ("d_2".to_string(), 0), ("d_3".to_string(), 2)])
    );
    assert_eq!(qrels.get_rel_map("q_2").map(|m| m.len()), Some(2));
    assert_eq!(qrels.query_ids().count(), 2);
}

#[test]
fn qrels_from_json_shape_errors() {
    let format = Some(ElinorError::InvalidFormat("Invalid JSON format".to_string()));
    assert_eq!(parse_qrels_from_json("[1, 2]").err(), format.clone());
    assert_eq!(parse_qrels_from_json(r#"{"q": 1}"#).err(), format.clone());
    assert_eq!(parse_qrels_from_json(r#"{"q": {"d": 1.5}}"#).err(), format.clone());
    assert_eq!(parse_qrels_from_json(r#"{"q": {"d": -1}}"#).err(), format.clone());
    assert_eq!(parse_qrels_from_json(r#"{"q": {"d": "1"}}"#).err(), format);
    assert_eq!(
        parse_qrels_from_json(r#"{"q": {"d": 3000000000}}"#).err(),
        Some(ElinorError::InvalidFormat("Invalid score".to_string()))
    );
}

#[test]
fn qrels_from_json_syntax_error() {
    match parse_qrels_from_json("{\"q\": ") {
        Err(ElinorError::InvalidFormat(m)) => assert!(m.starts_with("Invalid JSON format: ")),
        other => panic!("unexpected {:?}", other.map(|q| q.name().map(|s| s.to_string()))),
    }
}

#[test]
fn qrels_from_json_value_duplicate_before_format_error() {
    let doc = |d: &str, n: u64| (d.to_string(), JsonValue::Number(Some(n), Some((n as f64).to_bits())));
    let v = JsonValue::Object(vec![
        ("q".to_string(), JsonValue::Object(vec![doc("d", 1), doc("d", 2)])),
        ("r".to_string(), JsonValue::Null),
    ]);
    assert_eq!(
        qrels_from_json_value(&v).err(),
        Some(ElinorError::DuplicateEntry(
            "Input query-doc pair must be unique, but got query_id=q, doc_id=d".to_string()
        ))
    );
    let w = JsonValue::Object(vec![
        ("r".to_string(), JsonValue::Null),
        ("q".to_string(), JsonValue::Object(vec![doc("d", 1), doc("d", 2)])),
    ]);
    assert_eq!(
        qrels_from_json_value(&w).err(),
        Some(ElinorError::InvalidFormat("Invalid JSON format".to_string()))
    );
}

#[test]
fn json_values_are_converted_variant_for_variant() {
    match json_from_str(r#"[1, [true, {"b": null, "a": "s"}], -2, 0.5]"#) {
        Ok(JsonValue::Array(items)) => {
            assert_eq!(items.len(), 4);
            assert!(matches!(items[0], JsonValue::Number(Some(1), Some(b)) if b == 1.0f64.to_bits()));
            match &items[1] {
                JsonValue::Array(inner) => {
                    assert!(matches!(inner[0], JsonValue::Bool(true)));
                    match &inner[1] {
                        JsonValue::Object(members) => {
                            assert_eq!(members[0].0, "a");
                            assert!(matches!(&members[0].1, JsonValue::Str(s) if s == "s"));
                            assert_eq!(members[1].0, "b");
                            assert!(matches!(members[1].1, JsonValue::Null));
                        }
                        other => panic!("unexpected {:?}", other),
                    }
                }
                other => panic!("unexpected {:?}", other),
            }
            assert!(matches!(items[2], JsonValue::Number(None, Some(b)) if b == (-2.0f64).to_bits()));
            assert!(matches!(items[3], JsonValue::Number(None, Some(b)) if b == 0.5f64.to_bits()));
        }
        other => panic!("unexpected {:?}", other),
    }
    assert!(json_from_str("nope").is_err());
}

#[test]
fn run_from_json_example() {
    let data = r#"
{
    "q_1": {"d_1": 0.5, "d_2": 0.4, "d_3": 0.3},
    "q_2": {"d_3": 0.3, "d_1": 0.2, "d_4": 0.1}
}"#;
    let run = parse_run_from_json(data).unwrap();
    assert_eq!(run.name(), None);
    let ids: Vec<&String> = run.query_ids().collect();
    assert_eq!(ids, vec!["q_1", "q_2"]);
    let key = pred_score_from_bits(0.3f64.to_bits());
    let q1 = run.get_sorted_rels("q_1").unwrap();
    assert_eq!(q1.len(), 3);
    assert_eq!(q1[2].doc_id, "d_3");
    assert_eq!(q1[2].score, key);
    let docs: Vec<&str> = run.get_sorted_rels("q_2").unwrap().iter().map(|r| r.doc_id.as_str()).collect();
    assert_eq!(docs, vec!["d_3", "d_1", "d_4"]);
    assert_eq!(run.get_sorted_rels("q_3"), None);
}

#[test]
fn run_from_json_errors() {
    let format = Some(ElinorError::InvalidFormat("Invalid JSON format".to_string()));
    assert_eq!(parse_run_from_json("3").err(), format.clone());
    assert_eq!(parse_run_from_json(r#"{"q": [1]}"#).err(), format.clone());
    assert_eq!(parse_run_from_json(r#"{"q": {"d": "x"}}"#).err(), format);
    assert_eq!(
        parse_run_from_json(r#"{"q": {"d": 1.0}, "r": {"d": 2.0}}"#).map(|r| r.query_ids().count()),
        Ok(2)
    );
    assert!(matches!(parse_run_from_json("{").err(), Some(ElinorError::InvalidFormat(m)) if m.starts_with("Invalid JSON format: ")));
}

#[test]
fn pred_keys_order_scores() {
    let scores = [-3.5f64, -1.0, -0.0, 0.0, 1e-9, 0.5, 2.0, f64::INFINITY];
    let keys: Vec<u64> = scores.iter().map(|x| pred_score_from_bits(x.to_bits())).collect();
    for w in keys.windows(2) {
        assert!(w[0] <= w[1]);
    }
    assert_eq!(keys[2], keys[3]);
    assert!(keys[3] < keys[4]);
    assert!(pred_score_from_bits(f64::NEG_INFINITY.to_bits()) < keys[0]);
}

#[test]
fn run_from_json_value_keys_scores() {
    let bits = (-1.5f64).to_bits();
    let v = JsonValue::Object(vec![
        ("q".to_string(), JsonValue::Object(vec![("d".to_string(), JsonValue::Number(None, Some(bits)))])),
        ("r".to_string(), JsonValue::Object(vec![])),
    ]);
    let run = run_from_json_value(&v).unwrap();
    assert_eq!(run.get_sorted_rels("q").unwrap()[0].score, pred_score_from_bits(bits));
    assert_eq!(run.get_sorted_rels("r"), None);
    let bad = JsonValue::Object(vec![("q".to_string(), JsonValue::Object(vec![("d".to_string(), JsonValue::Null)]))]);
    assert_eq!(
        run_from_json_value(&bad).err(),
        Some(ElinorError::InvalidFormat("Invalid JSON format".to_string()))
    );
}
