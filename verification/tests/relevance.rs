use std::collections::HashSet;

use elinor::errors::ElinorError;
use elinor::relevance::{Record, Relevance, RelevanceStore, RelevanceStoreBuilder};

fn rec(query_id: char, doc_id: char, score: i32) -> Record<char, i32> {
    Record {
        query_id,
        doc_id,
        score,
    }
}

#[test]
fn test_relevance_store_from_into_records() {
    let mut records = vec![
        Record {
            query_id: 'a',
            doc_id: 'x',
            score: 1,
        },
        Record {
            query_id: 'b',
            doc_id: 'x',
            score: 1,
        },
        Record {
            query_id: 'b',
            doc_id: 'y',
            score: 2,
        },
        Record {
            query_id: 'c',
            doc_id: 'x',
            score: 1,
        },
    ];
    let store = RelevanceStore::from_records(records.iter().cloned().collect()).unwrap();
    let mut other = store.into_records();
    records.sort();
    other.sort();
    assert_eq!(records, other);
}

#[test]
fn test_relevance_store_n_queries() {
    let store = RelevanceStore::from_records(vec![
        Record {
            query_id: 'a',
            doc_id: 'x',
            score: 1,
        },
        Record {
            query_id: 'b',
            doc_id: 'x',
            score: 1,
        },
        Record {
            query_id: 'b',
            doc_id: 'y',
            score: 2,
        },
        Record {
            query_id: 'c',
            doc_id: 'x',
            score: 1,
        },
    ])
    .unwrap();
    assert_eq!(store.n_queries(), 3);
}

#[test]
fn test_relevance_store_n_docs() {
    let store = RelevanceStore::from_records(vec![
        Record {
            query_id: 'a',
            doc_id: 'x',
            score: 1,
        },
        Record {
            query_id: 'b',
            doc_id: 'x',
            score: 1,
        },
        Record {
            query_id: 'b',
            doc_id: 'y',
            score: 2,
        },
        Record {
            query_id: 'c',
            doc_id: 'x',
            score: 1,
        },
    ])
    .unwrap();
    assert_eq!(store.n_docs(), 4);
}

#[test]
fn test_relevance_store_get_score() {
    let store = RelevanceStore::from_records(vec![Record {
        query_id: 'a',
        doc_id: 'x',
        score: 1,
    }])
    .unwrap();
    assert_eq!(store.get_score(&'a', &'x'), Some(&1));
    assert_eq!(store.get_score(&'a', &'y'), None);
    assert_eq!(store.get_score(&'b', &'x'), None);
}

#[test]
fn test_relevance_store_get_map() {
    let store = RelevanceStore::from_records(vec![
        Record {
            query_id: 'a',
            doc_id: 'x',
            score: 1,
        },
        Record {
            query_id: 'a',
            doc_id: 'y',
            score: 2,
        },
    ])
    .unwrap();
    assert_eq!(store.get_map(&'a'), Some(&[('x', 1), ('y', 2)].into()));
    assert_eq!(store.get_map(&'b'), None);
}

#[test]
fn test_relevance_store_get_sorted() {
    let store = RelevanceStore::from_records(vec![
        Record {
            query_id: 'a',
            doc_id: 'x',
            score: 1,
        },
        Record {
            query_id: 'a',
            doc_id: 'y',
            score: 2,
        },
    ])
    .unwrap();
    let expected = vec![
        Relevance {
            doc_id: 'y',
            score: 2,
        },
        Relevance {
            doc_id: 'x',
            score: 1,
        },
    ];
    assert_eq!(store.get_sorted(&'a'), Some(expected.as_slice()));
    assert_eq!(store.get_sorted(&'b'), None);
}

#[test]
fn test_relevance_store_query_ids() {
    let store = RelevanceStore::from_records(vec![
        Record {
            query_id: 'a',
            doc_id: 'x',
            score: 1,
        },
        Record {
            query_id: 'b',
            doc_id: 'x',
            score: 1,
        },
        Record {
            query_id: 'c',
            doc_id: 'x',
            score: 1,
        },
    ])
    .unwrap();
    let expected = HashSet::from_iter([&'a', &'b', &'c']);
    let actual = store.query_ids().collect::<HashSet<_>>();
    assert_eq!(actual, expected);
}

#[test]
fn test_relevance_store_builder() {
    let mut b = RelevanceStoreBuilder::new();
    b.add_record('a', 'x', 1).unwrap();
    b.add_record('a', 'y', 2).unwrap();
    b.add_record('b', 'x', 3).unwrap();
    let store = b.build();
    assert_eq!(store.get_map(&'a'), Some(&[('x', 1), ('y', 2)].into()));
    assert_eq!(store.get_map(&'b'), Some(&[('x', 3)].into()));
    assert_eq!(store.get_map(&'c'), None);
}

#[test]
fn test_relevance_store_builder_duplicate_entry() {
    let mut b = RelevanceStoreBuilder::new();
    b.add_record('a', 'x', 1).unwrap();
    assert_eq!(
        b.add_record('a', 'x', 2),
        Err(ElinorError::DuplicateEntry(
            "Input query-doc pair must be unique, but got query_id=a, doc_id=x".to_string()
        ))
    );
}

#[test]
fn relevance_store_from_records_duplicate_names_first_repeat() {
    let result = RelevanceStore::from_records(vec![
        rec('a', 'x', 1),
        rec('b', 'y', 1),
        rec('b', 'y', 3),
        rec('a', 'x', 2),
    ]);
    assert_eq!(
        result.err(),
        Some(ElinorError::DuplicateEntry(
            "Input query-doc pair must be unique, but got query_id=b, doc_id=y".to_string()
        ))
    );
}

#[test]
fn relevance_store_duplicate_leaves_builder_unchanged() {
    let mut b = RelevanceStoreBuilder::new();
    b.add_record('a', 'x', 1).unwrap();
    assert!(b.add_record('a', 'x', 5).is_err());
    let store = b.build();
    assert_eq!(store.get_score(&'a', &'x'), Some(&1));
    assert_eq!(store.n_docs(), 1);
}

#[test]
fn relevance_store_records_are_ordered() {
    let store = RelevanceStore::from_records(vec![
        rec('c', 'x', 1),
        rec('a', 'z', 1),
        rec('a', 'y', 3),
        rec('a', 'x', 1),
        rec('b', 'w', 0),
    ])
    .unwrap();
    assert_eq!(
        store.records(),
        vec![
            rec('a', 'y', 3),
            rec('a', 'x', 1),
            rec('a', 'z', 1),
            rec('b', 'w', 0),
            rec('c', 'x', 1),
        ]
    );
}

#[test]
fn relevance_store_round_trip_keeps_store() {
    let store = RelevanceStore::from_records(vec![
        rec('b', 'y', 2),
        rec('a', 'x', 1),
        rec('b', 'x', 1),
    ])
    .unwrap();
    let again = RelevanceStore::from_records(store.records()).unwrap();
    assert_eq!(again.records(), store.records());
    assert_eq!(again.n_queries(), 2);
    assert_eq!(again.n_docs(), 3);
}

#[test]
fn relevance_store_order_of_records_does_not_matter() {
    let a = RelevanceStore::from_records(vec![rec('a', 'x', 1), rec('b', 'y', 2), rec('a', 'z', 3)]).unwrap();
    let b = RelevanceStore::from_records(vec![rec('a', 'z', 3), rec('a', 'x', 1), rec('b', 'y', 2)]).unwrap();
    assert_eq!(a.records(), b.records());
}

#[test]
fn relevance_store_empty() {
    let store: RelevanceStore<char, i32> = RelevanceStore::from_records(vec![]).unwrap();
    assert_eq!(store.n_queries(), 0);
    assert_eq!(store.n_docs(), 0);
    assert_eq!(store.query_ids().count(), 0);
    assert!(store.records().is_empty());
}

#[test]
fn relevance_store_query_ids_in_increasing_order() {
    let store = RelevanceStore::from_records(vec![rec('c', 'x', 1), rec('a', 'x', 1), rec('b', 'x', 1)]).unwrap();
    let ids: Vec<char> = store.query_ids().cloned().collect();
    assert_eq!(ids, vec!['a', 'b', 'c']);
    assert_eq!(*store.query_id_at(1), 'b');
}

#[test]
fn relevance_store_with_string_keys() {
    let mut b: RelevanceStoreBuilder<String, u32> = RelevanceStoreBuilder::new();
    b.add_record("q_10".to_string(), "d_2".to_string(), 1).unwrap();
    b.add_record("q_2".to_string(), "d_1".to_string(), 2).unwrap();
    b.add_record("q_10".to_string(), "d_1".to_string(), 0).unwrap();
    let store = b.build();
    let ids: Vec<String> = store.query_ids().cloned().collect();
    assert_eq!(ids, vec!["q_10".to_string(), "q_2".to_string()]);
    assert_eq!(
        store.get_map(&"q_10".to_string()),
        Some(&vec![("d_1".to_string(), 0), ("d_2".to_string(), 1)])
    );
    assert_eq!(
        b_err_message(),
        "Input query-doc pair must be unique, but got query_id=q, doc_id=d".to_string()
    );
}

fn b_err_message() -> String {
    let mut b: RelevanceStoreBuilder<String, u32> = RelevanceStoreBuilder::new();
    b.add_record("q".to_string(), "d".to_string(), 1).unwrap();
    match b.add_record("q".to_string(), "d".to_string(), 1) {
        Err(e) => e.message().clone(),
        Ok(()) => String::new(),
    }
}

#[test]
fn relevance_store_ties_ranked_by_document_id() {
    let store = RelevanceStore::from_records(vec![rec('a', 'z', 1), rec('a', 'x', 1), rec('a', 'y', 2)]).unwrap();
    let sorted = store.get_sorted(&'a').unwrap();
    let docs: Vec<char> = sorted.iter().map(|r| r.doc_id).collect();
    assert_eq!(docs, vec!['y', 'x', 'z']);
}

#[test]
fn records_and_into_records_agree() {
    let store = RelevanceStore::from_records(vec![
        rec('b', 'y', 2),
        rec('a', 'x', 1),
        rec('b', 'x', 1),
        rec('b', 'z', 2),
    ])
    .unwrap();
    let listed = store.records();
    assert_eq!(listed.len(), store.n_docs());
    assert_eq!(listed, store.into_records());
}
