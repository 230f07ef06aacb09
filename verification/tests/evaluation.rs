use elinor::errors::ElinorError;
use elinor::evaluation::{paired_scores_from_evaluated, tupled_scores_from_evaluated, Evaluated};

fn evaluated(scores: &[(&str, f64)], mean_score: f64) -> Evaluated<String, f64> {
    Evaluated::new(
        scores.iter().map(|&(q, s)| (q.to_string(), s)).collect(),
        mean_score,
    )
}

#[test]
fn test_paired_scores_from_evaluated() {
    let evaluated_a = evaluated(&[("q_1", 2.), ("q_2", 5.)], 3.5);
    let evaluated_b = evaluated(&[("q_1", 1.), ("q_2", 0.)], 0.5);
    let paired_scores = paired_scores_from_evaluated(&evaluated_a, &evaluated_b).unwrap();
    assert_eq!(paired_scores, vec![(2., 1.), (5., 0.)]);
}

#[test]
fn test_paired_scores_from_evaluated_different_n_queries() {
    let evaluated_a = evaluated(&[("q_1", 2.), ("q_2", 5.)], 3.5);
    let evaluated_b = evaluated(&[("q_1", 1.)], 1.0);
    let result = paired_scores_from_evaluated(&evaluated_a, &evaluated_b);
    assert_eq!(
        result.unwrap_err(),
        ElinorError::InvalidArgument(
            "The two evaluated results must have the same number of queries.".to_string()
        )
    );
}

#[test]
fn test_paired_scores_from_evaluated_missing_query_id() {
    let evaluated_a = evaluated(&[("q_1", 2.), ("q_2", 5.)], 3.5);
    let evaluated_b = evaluated(&[("q_1", 1.), ("q_3", 0.)], 0.5);
    let result = paired_scores_from_evaluated(&evaluated_a, &evaluated_b);
    assert_eq!(
        result.unwrap_err(),
        ElinorError::InvalidArgument(
            "The query id q_2 is not found in the second evaluated result.".to_string()
        )
    );
}

#[test]
fn test_tupled_scores_from_evaluated() {
    let evaluated_a = evaluated(&[("q_1", 2.), ("q_2", 5.)], 3.5);
    let evaluated_b = evaluated(&[("q_1", 1.), ("q_2", 0.)], 0.5);
    let evaluated_c = evaluated(&[("q_1", 2.), ("q_2", 1.)], 1.5);
    let tupled_scores =
        tupled_scores_from_evaluated(&[evaluated_a, evaluated_b, evaluated_c]).unwrap();
    assert_eq!(tupled_scores, vec![vec![2., 1., 2.], vec![5., 0., 1.]]);
}

#[test]
fn evaluated_scores_in_query_order() {
    let e = evaluated(&[("q_3", 0.3), ("q_1", 0.1), ("q_2", 0.2)], 0.2);
    let ids: Vec<&str> = e.scores().iter().map(|(q, _)| q.as_str()).collect();
    assert_eq!(ids, vec!["q_1", "q_2", "q_3"]);
    assert_eq!(e.mean_score(), 0.2);
}

#[test]
fn tupled_scores_errors() {
    let a = evaluated(&[("q_1", 2.), ("q_2", 5.)], 3.5);
    let b = evaluated(&[("q_1", 1.)], 1.0);
    let c = evaluated(&[("q_1", 1.), ("q_3", 0.)], 0.5);
    assert_eq!(
        tupled_scores_from_evaluated(&[a]),
        Err(ElinorError::InvalidArgument(
            "The number of evaluated results must be at least 2.".to_string()
        ))
    );
    let a = evaluated(&[("q_1", 2.), ("q_2", 5.)], 3.5);
    assert_eq!(
        tupled_scores_from_evaluated(&[a, b]),
        Err(ElinorError::InvalidArgument(
            "The evaluated results must have the same number of queries.".to_string()
        ))
    );
    let a = evaluated(&[("q_1", 2.), ("q_2", 5.)], 3.5);
    let a2 = evaluated(&[("q_1", 2.), ("q_2", 5.)], 3.5);
    assert_eq!(
        tupled_scores_from_evaluated(&[a, a2, c]),
        Err(ElinorError::InvalidArgument(
            "The query id q_2 is not found in the evaluated results.".to_string()
        ))
    );
}
