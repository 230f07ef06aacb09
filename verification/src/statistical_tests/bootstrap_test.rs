//! Bootstrap test: its parameters and the seed of a run.
use vstd::prelude::*;
use crate::statistical_tests::resampling::entropy_seed;

verus! {

/// Bootstrap tester.
///
/// # Default parameters
///
/// * `n_resamples`: `1000`
/// * `random_state`: `None`
#[derive(Debug, Clone, Copy)]
pub struct BootstrapTester {
    n_resamples: usize,
    random_state: Option<u64>,
}

impl BootstrapTester {
    /// The number of resamples.
    pub closed spec fn spec_n_resamples(&self) -> usize {
        self.n_resamples
    }

    /// The random state, if one was set.
    pub closed spec fn spec_random_state(&self) -> Option<u64> {
        self.random_state
    }

    /// Creates a new bootstrap tester.
    pub fn new() -> (r: Self)
        ensures
            r.spec_n_resamples() == 1000,
            r.spec_random_state() == None::<u64>,
    {
        BootstrapTester { n_resamples: 1000, random_state: None }
    }

    /// Sets the number of resamples.
    pub fn with_n_resamples(self, n_resamples: usize) -> (r: Self)
        ensures
            r.spec_n_resamples() == n_resamples,
            r.spec_random_state() == self.spec_random_state(),
    {
        BootstrapTester { n_resamples, random_state: self.random_state }
    }

    /// Sets the random state.
    pub fn with_random_state(self, random_state: u64) -> (r: Self)
        ensures
            r.spec_n_resamples() == self.spec_n_resamples(),
            r.spec_random_state() == Some(random_state),
    {
        BootstrapTester { n_resamples: self.n_resamples, random_state: Some(random_state) }
    }

    /// Number of resamples.
    pub fn n_resamples(&self) -> (r: usize)
        ensures
            r == self.spec_n_resamples(),
    {
        self.n_resamples
    }

    /// Random state, if one was set.
    pub fn random_state(&self) -> (r: Option<u64>)
        ensures
            r == self.spec_random_state(),
    {
        self.random_state
    }

    /// The seed of a test run: the random state if one was set, else a
    /// number drawn from the thread's generator.
    pub fn seed(&self) -> (r: u64)
        ensures
            self.spec_random_state() matches Some(s) ==> r == s,
    {
        match self.random_state {
            Some(s) => s,
            None => entropy_seed(),
        }
    }
}

impl Default for BootstrapTester {
    fn default() -> (r: Self)
        ensures
            r.spec_n_resamples() == 1000,
            r.spec_random_state() == None::<u64>,
    {
        Self::new()
    }
}

} // verus!
