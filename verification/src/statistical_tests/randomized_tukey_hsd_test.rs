//! Randomized Tukey HSD test: its parameters and the checks on its input.
use vstd::prelude::*;
use vstd::string::*;
use crate::errors::ElinorError;
use crate::statistical_tests::resampling::entropy_seed;
use crate::statistical_tests::samples::{check_sample_lengths, sample_length_message};

verus! {

/// The message of the error for an input without samples.
pub open spec fn no_samples_message() -> Seq<char> {
    "The input must have at least one sample."@
}

/// Randomized Tukey HSD tester.
///
/// # Default parameters
///
/// * `n_iters`: `10000`
/// * `random_state`: `None`
#[derive(Debug, Clone)]
pub struct RandomizedTukeyHsdTester {
    n_systems: usize,
    n_iters: usize,
    random_state: Option<u64>,
}

impl RandomizedTukeyHsdTester {
    /// The number of systems.
    pub closed spec fn spec_n_systems(&self) -> usize {
        self.n_systems
    }

    /// The number of iterations.
    pub closed spec fn spec_n_iters(&self) -> usize {
        self.n_iters
    }

    /// The random state, if one was set.
    pub closed spec fn spec_random_state(&self) -> Option<u64> {
        self.random_state
    }

    /// Creates a new randomized Tukey HSD tester.
    pub fn new(n_systems: usize) -> (r: Self)
        ensures
            r.spec_n_systems() == n_systems,
            r.spec_n_iters() == 10000,
            r.spec_random_state() == None::<u64>,
    {
        RandomizedTukeyHsdTester { n_systems, n_iters: 10000, random_state: None }
    }

    /// Sets the number of iterations.
    ///
    /// If the input is less than `1`, it is modified to `1`.
    pub fn with_n_iters(self, n_iters: usize) -> (r: Self)
        ensures
            r.spec_n_systems() == self.spec_n_systems(),
            r.spec_n_iters() == if n_iters < 1 { 1 } else { n_iters },
            r.spec_random_state() == self.spec_random_state(),
    {
        let n_iters = if n_iters < 1 { 1 } else { n_iters };
        RandomizedTukeyHsdTester { n_systems: self.n_systems, n_iters, random_state: self.random_state }
    }

    /// Sets the random state.
    pub fn with_random_state(self, random_state: u64) -> (r: Self)
        ensures
            r.spec_n_systems() == self.spec_n_systems(),
            r.spec_n_iters() == self.spec_n_iters(),
            r.spec_random_state() == Some(random_state),
    {
        RandomizedTukeyHsdTester {
            n_systems: self.n_systems,
            n_iters: self.n_iters,
            random_state: Some(random_state),
        }
    }

    /// Number of systems.
    pub fn n_systems(&self) -> (r: usize)
        ensures
            r == self.spec_n_systems(),
    {
        self.n_systems
    }

    /// Number of iterations.
    pub fn n_iters(&self) -> (r: usize)
        ensures
            r == self.spec_n_iters(),
    {
        self.n_iters
    }

    /// Random state, if one was set.
    pub fn random_state(&self) -> (r: Option<u64>)
        ensures
            r == self.spec_random_state(),
    {
        self.random_state
    }

    /// The seed of a test run: the random state if one was set, else a
    /// number drawn from the thread's generator.
    pub fn seed(&self) -> (r: u64)
        ensures
            self.spec_random_state() matches Some(s) ==> r == s,
    {
        match self.random_state {
            Some(s) => s,
            None => entropy_seed(),
        }
    }

    /// Checks the lengths of the samples of a test run, one per topic.
    ///
    /// # Errors
    ///
    /// * [`ElinorError::InvalidArgument`] if the length of a sample is not
    ///   the number of systems, or else if there is no sample.
    pub fn check_samples(&self, lens: &[usize]) -> (r: Result<(), ElinorError>)
        ensures
            (exists|i: int| 0 <= i < lens.len() && lens[i] != self.spec_n_systems()) ==> (r matches Err(
                ElinorError::InvalidArgument(m),
            ) && m@ == sample_length_message()),
            (forall|i: int| 0 <= i < lens.len() ==> lens[i] == self.spec_n_systems()) ==> {
                &&& r is Ok <==> lens.len() > 0
                &&& r matches Err(e) ==> (e matches ElinorError::InvalidArgument(m)
                    && m@ == no_samples_message())
            },
    {
        check_sample_lengths(lens, self.n_systems)?;
        if lens.len() == 0 {
            return Err(ElinorError::InvalidArgument(
                String::from_str("The input must have at least one sample."),
            ));
        }
        Ok(())
    }
}

} // verus!
