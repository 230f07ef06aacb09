use elinor::errors::ElinorError;
use elinor::pred_score_from_bits;
use elinor::relevance::Relevance;
use elinor::run::{Run, RunBuilder};

fn key(x: f64) -> u64 {
    pred_score_from_bits(x.to_bits())
}

fn sample() -> Run {
    let mut b = RunBuilder::new().name("sample".to_string());
    b.add_score("q_2".to_string(), "d_1".to_string(), key(0.1)).unwrap();
    b.add_score("q_1".to_string(), "d_2".to_string(), key(0.7)).unwrap();
    b.add_score("q_1".to_string(), "d_1".to_string(), key(-0.3)).unwrap();
    b.add_score("q_1".to_string(), "d_3".to_string(), key(0.2)).unwrap();
    b.build()
}

#[test]
fn run_builder_and_lookups() {
    let run = sample();
    assert_eq!(run.name(), Some("sample"));
    assert_eq!(
        run.get_sorted_rels("q_1"),
        Some(
            &[
                Relevance { doc_id: "d_2".to_string(), score: key(0.7) },
                Relevance { doc_id: "d_3".to_string(), score: key(0.2) },
                Relevance { doc_id: "d_1".to_string(), score: key(-0.3) },
            ][..]
        )
    );
    assert_eq!(run.get_sorted_rels("q_9"), None);
    let ids: Vec<&String> = run.query_ids().collect();
    assert_eq!(ids, vec!["q_1", "q_2"]);
}

#[test]
fn run_sorted_rels_by_query() {
    let run = sample();
    let sorted = run.query_ids_and_sorted_rels();
    assert_eq!(sorted.len(), 2);
    assert_eq!(sorted[0].0, "q_1");
    assert_eq!(sorted[0].1.len(), 3);
    assert_eq!(sorted[1].0, "q_2");
    assert_eq!(sorted[1].1, &[Relevance { doc_id: "d_1".to_string(), score: key(0.1) }][..]);
}

#[test]
fn run_builder_duplicate_keeps_first() {
    let mut b = RunBuilder::new();
    assert_eq!(b.n_added(), 0);
    b.add_score("q".to_string(), "d".to_string(), key(1.0)).unwrap();
    assert_eq!(
        b.add_score("q".to_string(), "d".to_string(), key(3.0)),
        Err(ElinorError::DuplicateEntry(
            "Input query-doc pair must be unique, but got query_id=q, doc_id=d".to_string()
        ))
    );
    assert_eq!(b.n_added(), 1);
    let run = b.build();
    assert_eq!(run.name(), None);
    assert_eq!(run.get_sorted_rels("q").unwrap()[0].score, key(1.0));
}

#[test]
fn run_from_map() {
    let run = Run::from_map(
        Some("m".to_string()),
        vec![
            ("q_2".to_string(), vec![("d_9".to_string(), key(3.0))]),
            ("q_1".to_string(), vec![("d_2".to_string(), key(1.0)), ("d_1".to_string(), key(2.0))]),
        ],
    );
    assert_eq!(run.name(), Some("m"));
    let docs: Vec<&str> = run.get_sorted_rels("q_1").unwrap().iter().map(|r| r.doc_id.as_str()).collect();
    assert_eq!(docs, vec!["d_1", "d_2"]);
    assert_eq!(run.get_sorted_rels("q_2").map(|s| s.len()), Some(1));
}

#[test]
fn run_from_map_keeps_query_without_documents() {
    let run = Run::from_map(
        None,
        vec![
            ("q_1".to_string(), vec![("d_1".to_string(), key(0.5))]),
            ("q_0".to_string(), vec![]),
        ],
    );
    assert_eq!(run.get_sorted_rels("q_0"), Some(&[][..]));
    assert_eq!(run.get_sorted_rels("q_9"), None);
    let ids: Vec<&String> = run.query_ids().collect();
    assert_eq!(ids, vec!["q_0", "q_1"]);
    let sorted = run.query_ids_and_sorted_rels();
    assert_eq!(sorted[0].0, "q_0");
    assert!(sorted[0].1.is_empty());
}
