//! Paired bootstrap test: its parameters.
use vstd::prelude::*;

verus! {

/// Paired bootstrap tester.
///
/// # Default parameters
///
/// * `n_resamples`: `9999`
/// * `random_state`: `None`
#[derive(Debug, Clone, Copy)]
pub struct BootstrapTester {
    n_resamples: usize,
    random_state: Option<u64>,
}

impl BootstrapTester {
    /// The number of resamples.
    pub closed spec fn spec_n_resamples(&self) -> usize {
        self.n_resamples
    }

    /// The random state, if one was set.
    pub closed spec fn spec_random_state(&self) -> Option<u64> {
        self.random_state
    }

    /// Creates a new paired bootstrap tester.
    pub fn new() -> (r: Self)
        ensures
            r.spec_n_resamples() == 9999,
            r.spec_random_state() == None::<u64>,
    {
        BootstrapTester { n_resamples: 9999, random_state: None }
    }

    /// Sets the number of resamples.
    pub fn with_resamples(self, n_resamples: usize) -> (r: Self)
        ensures
            r.spec_n_resamples() == n_resamples,
            r.spec_random_state() == self.spec_random_state(),
    {
        BootstrapTester { n_resamples, random_state: self.random_state }
    }

    /// Sets the random state.
    pub fn with_random_state(self, random_state: u64) -> (r: Self)
        ensures
            r.spec_n_resamples() == self.spec_n_resamples(),
            r.spec_random_state() == Some(random_state),
    {
        BootstrapTester { n_resamples: self.n_resamples, random_state: Some(random_state) }
    }

    /// Number of resamples.
    pub fn n_resamples(&self) -> (r: usize)
        ensures
            r == self.spec_n_resamples(),
    {
        self.n_resamples
    }

    /// Random state, if one was set.
    pub fn random_state(&self) -> (r: Option<u64>)
        ensures
            r == self.spec_random_state(),
    {
        self.random_state
    }
}

} // verus!
