use elinor::errors::ElinorError;
use elinor::statistical_tests::paired_bootstrap_test;
use elinor::statistical_tests::{
    check_sample_count, check_sample_lengths, pairs_from_maps, tuples_from_maps, BootstrapTester,
    RandomizedTukeyHsdTester, Resampler,
};

#[test]
fn bootstrap_tester_defaults() {
    let t = BootstrapTester::new();
    assert_eq!(t.n_resamples(), 1000);
    assert_eq!(t.random_state(), None);
    let d = BootstrapTester::default();
    assert_eq!(d.n_resamples(), 1000);
    assert_eq!(d.random_state(), None);
}

#[test]
fn bootstrap_tester_with_parameters_kept() {
    let t = BootstrapTester::new().with_n_resamples(334).with_random_state(42);
    assert_eq!(t.n_resamples(), 334);
    assert_eq!(t.random_state(), Some(42));
    assert_eq!(t.seed(), 42);
}

#[test]
fn sample_count_checks() {
    let msg = "The input must have at least two samples.".to_string();
    assert_eq!(check_sample_count(0), Err(ElinorError::InvalidArgument(msg.clone())));
    assert_eq!(check_sample_count(1), Err(ElinorError::InvalidArgument(msg)));
    assert_eq!(check_sample_count(2), Ok(()));
}

#[test]
fn sample_length_checks() {
    let msg = "The length of each sample must be equal to the number of systems.".to_string();
    assert_eq!(check_sample_lengths(&[], 3), Ok(()));
    assert_eq!(check_sample_lengths(&[3, 3], 3), Ok(()));
    assert_eq!(check_sample_lengths(&[3, 2, 3], 3), Err(ElinorError::InvalidArgument(msg)));
}

#[test]
fn paired_bootstrap_tester_parameters() {
    let t = paired_bootstrap_test::BootstrapTester::new();
    assert_eq!(t.n_resamples(), 9999);
    assert_eq!(t.random_state(), None);
    let t = t.with_resamples(10).with_random_state(7);
    assert_eq!(t.n_resamples(), 10);
    assert_eq!(t.random_state(), Some(7));
}

#[test]
fn randomized_tukey_hsd_tester_parameters() {
    let t = RandomizedTukeyHsdTester::new(3);
    assert_eq!(t.n_systems(), 3);
    assert_eq!(t.n_iters(), 10000);
    assert_eq!(t.random_state(), None);
    let t = t.with_n_iters(0).with_random_state(5);
    assert_eq!(t.n_iters(), 1);
    assert_eq!(t.random_state(), Some(5));
    assert_eq!(t.seed(), 5);
    assert_eq!(t.clone().with_n_iters(20).n_iters(), 20);
}

#[test]
fn randomized_tukey_hsd_tester_sample_checks() {
    let t = RandomizedTukeyHsdTester::new(2);
    assert_eq!(
        t.check_samples(&[]),
        Err(ElinorError::InvalidArgument("The input must have at least one sample.".to_string()))
    );
    assert_eq!(t.check_samples(&[2]), Ok(()));
    assert_eq!(
        t.check_samples(&[2, 1]),
        Err(ElinorError::InvalidArgument(
            "The length of each sample must be equal to the number of systems.".to_string()
        ))
    );
}

#[test]
fn resample_positions_in_range() {
    let mut r = Resampler::from_seed(42);
    for n in [1usize, 2, 5, 20] {
        let v = r.resample(n);
        assert_eq!(v.len(), n);
        assert!(v.iter().all(|&i| i < n));
    }
    assert!(r.resample(0).is_empty());
}

#[test]
fn resampling_repeats_with_a_seed() {
    let mut a = Resampler::from_seed(42);
    let mut b = Resampler::from_seed(42);
    for _ in 0..5 {
        assert_eq!(a.resample(10), b.resample(10));
        assert_eq!(a.permutation(6), b.permutation(6));
    }
}

#[test]
fn permutation_holds_each_position_once() {
    let mut r = Resampler::from_seed(3);
    for m in [0usize, 1, 2, 9] {
        let mut v = r.permutation(m);
        v.sort();
        assert_eq!(v, (0..m).collect::<Vec<_>>());
    }
}

#[test]
fn tuples_from_maps_aligns_values() {
    let a = vec![("q1".to_string(), 0.5), ("q2".to_string(), 0.25)];
    let b = vec![("q1".to_string(), 1.0), ("q2".to_string(), 0.0)];
    let c = vec![("q1".to_string(), 2.0), ("q2".to_string(), 3.0)];
    let t = tuples_from_maps(&[&a, &b, &c]).unwrap();
    assert_eq!(t, vec![vec![0.5, 1.0, 2.0], vec![0.25, 0.0, 3.0]]);
    assert_eq!(pairs_from_maps(&a, &b).unwrap(), vec![(0.5, 1.0), (0.25, 0.0)]);
}

#[test]
fn tuples_from_maps_errors() {
    let a = vec![("q1".to_string(), 0.5), ("q2".to_string(), 0.25)];
    let b = vec![("q1".to_string(), 1.0)];
    let c = vec![("q1".to_string(), 1.0), ("q3".to_string(), 1.0)];
    assert_eq!(
        tuples_from_maps(&[&a]),
        Err(ElinorError::InvalidArgument(
            "The number of maps maps must be at least 2, but got 1.".to_string()
        ))
    );
    assert_eq!(
        tuples_from_maps(&[&a, &a, &b]),
        Err(ElinorError::InvalidArgument(
            "The number of keys in maps must be the same, but got maps[0].len()=2 and maps[2].len()=1."
                .to_string()
        ))
    );
    assert_eq!(
        tuples_from_maps(&[&a, &c, &b]),
        Err(ElinorError::InvalidArgument("The keys in the maps must be the same.".to_string()))
    );
    assert_eq!(
        pairs_from_maps(&a, &c),
        Err(ElinorError::InvalidArgument("The keys in the maps must be the same.".to_string()))
    );
}

#[test]
fn permutations_are_shuffled() {
    let mut r = Resampler::from_seed(42);
    let identity: Vec<usize> = (0..10).collect();
    let shuffled = (0..5).any(|_| r.permutation(10) != identity);
    assert!(shuffled);
}
