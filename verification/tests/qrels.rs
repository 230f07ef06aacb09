use elinor::errors::ElinorError;
use elinor::qrels::{Qrels, QrelsBuilder};
use elinor::relevance::Relevance;

fn sample() -> Qrels {
    let mut b = QrelsBuilder::new().name("sample".to_string());
    b.add_score("q_2".to_string(), "d_1".to_string(), 0).unwrap();
    b.add_score("q_1".to_string(), "d_2".to_string(), 2).unwrap();
    b.add_score("q_1".to_string(), "d_1".to_string(), 1).unwrap();
    b.build()
}

#[test]
fn qrels_builder_and_lookups() {
    let qrels = sample();
    assert_eq!(qrels.name(), Some("sample"));
    assert_eq!(
        qrels.get_rel_map("q_1"),
        Some(&vec![("d_1".to_string(), 1), ("d_2".to_string(), 2)])
    );
    assert_eq!(qrels.get_rel_map("q_3"), None);
    assert_eq!(
        qrels.get_sorted_rels("q_1"),
        Some(
            &[
                Relevance { doc_id: "d_2".to_string(), score: 2 },
                Relevance { doc_id: "d_1".to_string(), score: 1 },
            ][..]
        )
    );
    let ids: Vec<&String> = qrels.query_ids().collect();
    assert_eq!(ids, vec!["q_1", "q_2"]);
}

#[test]
fn qrels_pairs_by_query() {
    let qrels = sample();
    let maps = qrels.query_ids_and_rel_maps();
    assert_eq!(maps.len(), 2);
    assert_eq!(maps[1].0, "q_2");
    assert_eq!(maps[1].1, &vec![("d_1".to_string(), 0)]);
    let sorted = qrels.query_ids_and_sorted_rels();
    assert_eq!(sorted[0].0, "q_1");
    assert_eq!(sorted[0].1[0].doc_id, "d_2");
}

#[test]
fn qrels_builder_duplicate() {
    let mut b = QrelsBuilder::new();
    b.add_score("q".to_string(), "d".to_string(), 1).unwrap();
    assert_eq!(
        b.add_score("q".to_string(), "d".to_string(), 3),
        Err(ElinorError::DuplicateEntry(
            "Input query-doc pair must be unique, but got query_id=q, doc_id=d".to_string()
        ))
    );
    assert_eq!(b.build().name(), None);
}

#[test]
fn qrels_from_map() {
    let qrels = Qrels::from_map(
        Some("m".to_string()),
        vec![
            ("q_2".to_string(), vec![("d_9".to_string(), 3)]),
            ("q_1".to_string(), vec![("d_2".to_string(), 1), ("d_1".to_string(), 2)]),
        ],
    );
    assert_eq!(qrels.name(), Some("m"));
    assert_eq!(
        qrels.get_rel_map("q_1"),
        Some(&vec![("d_1".to_string(), 2), ("d_2".to_string(), 1)])
    );
    assert_eq!(qrels.get_sorted_rels("q_2").map(|s| s.len()), Some(1));
}

#[test]
fn qrels_from_map_keeps_query_without_documents() {
    let qrels = Qrels::from_map(
        None,
        vec![
            ("q_2".to_string(), vec![]),
            ("q_1".to_string(), vec![("d_1".to_string(), 1)]),
        ],
    );
    assert_eq!(qrels.get_rel_map("q_2"), Some(&vec![]));
    assert_eq!(qrels.get_sorted_rels("q_2"), Some(&[][..]));
    assert_eq!(qrels.get_rel_map("q_3"), None);
    let ids: Vec<&String> = qrels.query_ids().collect();
    assert_eq!(ids, vec!["q_1", "q_2"]);
    let maps = qrels.query_ids_and_rel_maps();
    assert_eq!(maps.len(), 2);
    assert!(maps[1].1.is_empty());
}
