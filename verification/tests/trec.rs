use elinor::errors::ElinorError;
use elinor::trec::{parse_true_rels_in_trec, run_line_columns};

fn lines(text: &str) -> Vec<String> {
    text.trim().lines().map(|l| l.to_string()).collect()
}

#[test]
fn parse_true_rels_example() {
    let data = lines(
        "
q_1 0 d_1 1
q_1 0 d_2 0
q_1 0 d_3 2
q_2 0 d_2 2
q_2 0 d_4 1
",
    );
    let true_rels = parse_true_rels_in_trec(&data).unwrap();
    assert_eq!(true_rels.n_queries(), 2);
    assert_eq!(true_rels.n_docs(), 5);
    assert_eq!(true_rels.get_score(&"q_1".to_string(), &"d_3".to_string()), Some(&2));
}

#[test]
fn parse_true_rels_negative_score_is_clamped() {
    let data = lines("q_1 0 d_1 -3\nq_1 0 d_2 4");
    let true_rels = parse_true_rels_in_trec(&data).unwrap();
    assert_eq!(true_rels.get_score(&"q_1".to_string(), &"d_1".to_string()), Some(&0));
    assert_eq!(true_rels.get_score(&"q_1".to_string(), &"d_2".to_string()), Some(&4));
}

#[test]
fn parse_true_rels_extra_columns_and_spaces() {
    let data = vec!["  q_1\t0   d_1 1 extra\u{3000}".to_string()];
    let true_rels = parse_true_rels_in_trec(&data).unwrap();
    assert_eq!(true_rels.get_score(&"q_1".to_string(), &"d_1".to_string()), Some(&1));
}

#[test]
fn parse_true_rels_too_few_columns() {
    let data = lines("q_1 0 d_1 1\nq_1 0 d_2");
    assert_eq!(
        parse_true_rels_in_trec(&data).err(),
        Some(ElinorError::InvalidFormat(
            "Qrels line must have four columns at least, but got q_1 0 d_2".to_string()
        ))
    );
}

#[test]
fn parse_true_rels_bad_score() {
    let data = lines("q_1 0 d_1 1.5");
    assert_eq!(
        parse_true_rels_in_trec(&data).err(),
        Some(ElinorError::InvalidFormat(
            "The fourth column must be i32, but got 1.5".to_string()
        ))
    );
    let data = lines("q_1 0 d_1 2147483648");
    assert_eq!(
        parse_true_rels_in_trec(&data).err(),
        Some(ElinorError::InvalidFormat(
            "The fourth column must be i32, but got 2147483648".to_string()
        ))
    );
}

#[test]
fn parse_true_rels_signed_scores() {
    let data = lines("q 0 a +7\nq 0 b -2147483648");
    let true_rels = parse_true_rels_in_trec(&data).unwrap();
    assert_eq!(true_rels.get_score(&"q".to_string(), &"a".to_string()), Some(&7));
    assert_eq!(true_rels.get_score(&"q".to_string(), &"b".to_string()), Some(&0));
}

#[test]
fn parse_true_rels_duplicate() {
    let data = lines("q_1 0 d_1 1\nq_1 1 d_1 0");
    assert_eq!(
        parse_true_rels_in_trec(&data).err(),
        Some(ElinorError::DuplicateEntry(
            "Input query-doc pair must be unique, but got query_id=q_1, doc_id=d_1".to_string()
        ))
    );
}

#[test]
fn parse_true_rels_first_error_wins() {
    let data = lines("q_1 0 d_1 x\nq_1 0");
    assert_eq!(
        parse_true_rels_in_trec(&data).err(),
        Some(ElinorError::InvalidFormat(
            "The fourth column must be i32, but got x".to_string()
        ))
    );
}

#[test]
fn parse_true_rels_empty_input() {
    let store = parse_true_rels_in_trec(&[]).unwrap();
    assert_eq!(store.n_queries(), 0);
}

#[test]
fn run_line_columns_reads_three_columns() {
    assert_eq!(
        run_line_columns("q_1 Q0 d_1 1 0.5 SAMPLE"),
        Ok(("q_1".to_string(), "d_1".to_string(), "0.5".to_string()))
    );
}

#[test]
fn run_line_columns_too_few() {
    assert_eq!(
        run_line_columns("q_1 Q0 d_1 1"),
        Err(ElinorError::InvalidFormat(
            "Run line must have five columns at least, but got q_1 Q0 d_1 1".to_string()
        ))
    );
}
