use elinor::errors::ElinorError;
use elinor::rankings::{
    check_queries, compute_hits, compute_success, count_relevant, effective_cutoff,
    first_relevant_rank, gains, lookup_gold, nonrelevant_above, relevant_ranks, RELEVANT_LEVEL,
};
use elinor::relevance::{Record, Relevance, RelevanceStore};
use elinor::{GoldRelStoreBuilder, PredRelStoreBuilder};

fn ranking(docs: &[char]) -> Vec<Relevance<char, u64>> {
    let n = docs.len() as u64;
    docs.iter()
        .enumerate()
        .map(|(i, &d)| Relevance {
            doc_id: d,
            score: n - i as u64,
        })
        .collect()
}

fn golds() -> Vec<(char, u32)> {
    // Gold scores of documents, in increasing order of document id.
    vec![('a', 2), ('b', 0), ('c', 1), ('d', 0), ('e', 3)]
}

#[test]
fn cutoff_values() {
    assert_eq!(effective_cutoff(0, 5), 5);
    assert_eq!(effective_cutoff(3, 5), 3);
    assert_eq!(effective_cutoff(7, 5), 5);
    assert_eq!(effective_cutoff(0, 0), 0);
}

#[test]
fn lookup_gold_values() {
    let g = golds();
    assert_eq!(lookup_gold(&g, &'c'), Some(1));
    assert_eq!(lookup_gold(&g, &'z'), None);
}

#[test]
fn hits_and_success() {
    let g = golds();
    let preds = ranking(&['b', 'x', 'a', 'c', 'd', 'e']);
    assert_eq!(compute_hits(&g, &preds, 0, RELEVANT_LEVEL), 3);
    assert_eq!(compute_hits(&g, &preds, 3, RELEVANT_LEVEL), 1);
    assert_eq!(compute_hits(&g, &preds, 2, RELEVANT_LEVEL), 0);
    assert_eq!(compute_hits(&g, &preds, 100, RELEVANT_LEVEL), 3);
    assert_eq!(compute_hits(&g, &preds, 0, 2), 2);
    assert!(!compute_success(&g, &preds, 2, RELEVANT_LEVEL));
    assert!(compute_success(&g, &preds, 3, RELEVANT_LEVEL));
}

#[test]
fn ranks_of_relevant_documents() {
    let g = golds();
    let preds = ranking(&['b', 'x', 'a', 'c', 'd', 'e']);
    assert_eq!(relevant_ranks(&g, &preds, 0, RELEVANT_LEVEL), vec![3, 4, 6]);
    assert_eq!(relevant_ranks(&g, &preds, 4, RELEVANT_LEVEL), vec![3, 4]);
    assert_eq!(first_relevant_rank(&g, &preds, 0, RELEVANT_LEVEL), Some(3));
    assert_eq!(first_relevant_rank(&g, &preds, 2, RELEVANT_LEVEL), None);
}

#[test]
fn gains_of_ranked_documents() {
    let g = golds();
    let preds = ranking(&['e', 'x', 'a', 'b']);
    assert_eq!(gains(&g, &preds, 0), vec![3, 0, 2, 0]);
    assert_eq!(gains(&g, &preds, 2), vec![3, 0]);
}

#[test]
fn count_of_relevant_golds() {
    let g = golds();
    assert_eq!(count_relevant(&g, RELEVANT_LEVEL), 3);
    assert_eq!(count_relevant(&g, 3), 1);
    assert_eq!(count_relevant(&g, 0), 5);
}

#[test]
fn nonrelevant_documents_above_relevant_ones() {
    let g = golds();
    let preds = ranking(&['b', 'x', 'a', 'd', 'c', 'e']);
    assert_eq!(nonrelevant_above(&g, &preds, RELEVANT_LEVEL), vec![1, 2, 2]);
}

#[test]
fn empty_rankings() {
    let g = golds();
    let preds: Vec<Relevance<char, u64>> = vec![];
    assert_eq!(compute_hits(&g, &preds, 0, RELEVANT_LEVEL), 0);
    assert_eq!(relevant_ranks(&g, &preds, 3, RELEVANT_LEVEL), Vec::<usize>::new());
    assert_eq!(first_relevant_rank(&g, &preds, 0, RELEVANT_LEVEL), None);
}

#[test]
fn queries_of_predictions_must_be_judged() {
    let gold = RelevanceStore::from_records(vec![
        Record { query_id: 'q', doc_id: 'a', score: 1u32 },
        Record { query_id: 's', doc_id: 'a', score: 1u32 },
    ])
    .unwrap();
    let pred_ok = RelevanceStore::from_records(vec![Record { query_id: 'q', doc_id: 'a', score: 5u64 }]).unwrap();
    assert_eq!(check_queries(&gold, &pred_ok), Ok(()));
    let pred_bad = RelevanceStore::from_records(vec![
        Record { query_id: 'z', doc_id: 'a', score: 5u64 },
        Record { query_id: 'r', doc_id: 'a', score: 5u64 },
        Record { query_id: 'q', doc_id: 'a', score: 5u64 },
    ])
    .unwrap();
    assert_eq!(
        check_queries(&gold, &pred_bad),
        Err(ElinorError::MissingEntry("Query ID: r".to_string()))
    );
}

#[test]
fn ranking_of_one_query_counts() {
    // Gold: X=1, Y=0, Z=2; ranking: X, Y, Z, W.
    let g = vec![('X', 1u32), ('Y', 0), ('Z', 2)];
    let preds = ranking(&['X', 'Y', 'Z', 'W']);
    assert_eq!(relevant_ranks(&g, &preds, 0, RELEVANT_LEVEL), vec![1, 3]);
    assert_eq!(compute_hits(&g, &preds, 1, RELEVANT_LEVEL), 1);
    assert_eq!(compute_hits(&g, &preds, 2, RELEVANT_LEVEL), 1);
    assert_eq!(compute_hits(&g, &preds, 5, RELEVANT_LEVEL), 2);
    assert_eq!(gains(&g, &preds, 0), vec![1, 0, 2, 0]);
    assert_eq!(count_relevant(&g, RELEVANT_LEVEL), 2);
    assert_eq!(first_relevant_rank(&g, &preds, 0, RELEVANT_LEVEL), Some(1));
}

#[test]
fn basic_usage_counts() {
    let s = |x: &str| x.to_string();
    let mut b = GoldRelStoreBuilder::new();
    b.add_record(s("q_1"), s("d_1"), 1).unwrap();
    b.add_record(s("q_1"), s("d_2"), 0).unwrap();
    b.add_record(s("q_1"), s("d_3"), 2).unwrap();
    b.add_record(s("q_2"), s("d_2"), 2).unwrap();
    b.add_record(s("q_2"), s("d_4"), 1).unwrap();
    let gold_rels = b.build();
    // Keys ordered as the predicted scores 0.5, 0.4, 0.3, 0.1, 0.2, 0.3.
    let mut b = PredRelStoreBuilder::new();
    b.add_record(s("q_1"), s("d_1"), 5).unwrap();
    b.add_record(s("q_1"), s("d_2"), 4).unwrap();
    b.add_record(s("q_1"), s("d_3"), 3).unwrap();
    b.add_record(s("q_2"), s("d_4"), 1).unwrap();
    b.add_record(s("q_2"), s("d_1"), 2).unwrap();
    b.add_record(s("q_2"), s("d_3"), 3).unwrap();
    let pred_rels = b.build();
    assert_eq!(check_queries(&gold_rels, &pred_rels), Ok(()));

    let q1 = s("q_1");
    let trues = gold_rels.get_map(&q1).unwrap();
    let preds = pred_rels.get_sorted(&q1).unwrap();
    assert_eq!(compute_hits(trues, preds, 3, RELEVANT_LEVEL), 2);
    assert_eq!(first_relevant_rank(trues, preds, 0, RELEVANT_LEVEL), Some(1));

    let q2 = s("q_2");
    let trues = gold_rels.get_map(&q2).unwrap();
    let preds = pred_rels.get_sorted(&q2).unwrap();
    assert_eq!(compute_hits(trues, preds, 3, RELEVANT_LEVEL), 1);
    assert_eq!(first_relevant_rank(trues, preds, 0, RELEVANT_LEVEL), Some(3));
    assert_eq!(gains(trues, preds, 3), vec![0, 0, 1]);
    let golds = gold_rels.get_sorted(&q2).unwrap();
    assert_eq!(gains(trues, golds, 3), vec![2, 1]);
}

#[test]
fn hits_at_each_relevant_rank() {
    let g = golds();
    let preds = ranking(&['b', 'x', 'a', 'c', 'd', 'e', 'y']);
    let ranks = relevant_ranks(&g, &preds, 0, RELEVANT_LEVEL);
    for (i, &rank) in ranks.iter().enumerate() {
        assert_eq!(compute_hits(&g, &preds, rank, RELEVANT_LEVEL), i + 1);
    }
    assert_eq!(first_relevant_rank(&g, &preds, 0, RELEVANT_LEVEL), ranks.first().copied());
    let mut last = 0;
    for k in 1..=preds.len() {
        let hits = compute_hits(&g, &preds, k, RELEVANT_LEVEL);
        assert!(hits >= last);
        last = hits;
    }
}
