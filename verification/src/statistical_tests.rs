//! Statistical tests: their parameters, the checks on their inputs, and the
//! random resampling that they perform.
pub mod bootstrap_test;
pub mod paired_bootstrap_test;
pub mod pairing;
pub mod randomized_tukey_hsd_test;
pub mod resampling;
pub mod samples;

pub use bootstrap_test::BootstrapTester;
pub use pairing::{pairs_from_maps, tuples_from_maps};
pub use randomized_tukey_hsd_test::RandomizedTukeyHsdTester;
pub use resampling::Resampler;
pub use samples::{check_sample_count, check_sample_lengths};
