//! Checks on the samples that the statistical tests take.
use vstd::prelude::*;
use vstd::string::*;
use crate::errors::ElinorError;

verus! {

/// The message of the error for fewer than two samples.
pub open spec fn too_few_samples_message() -> Seq<char> {
    "The input must have at least two samples."@
}

/// The message of the error for a sample whose length is not the number of systems.
pub open spec fn sample_length_message() -> Seq<char> {
    "The length of each sample must be equal to the number of systems."@
}

/// Checks that there are at least two samples.
///
/// # Errors
///
/// * [`ElinorError::InvalidArgument`] if there are fewer than two samples.
pub fn check_sample_count(n_samples: usize) -> (r: Result<(), ElinorError>)
    ensures
        r is Ok <==> n_samples >= 2,
        r matches Err(e) ==> (e matches ElinorError::InvalidArgument(m)
            && m@ == too_few_samples_message()),
{
    if n_samples <= 1 {
        Err(ElinorError::InvalidArgument(
            String::from_str("The input must have at least two samples."),
        ))
    } else {
        Ok(())
    }
}

/// Checks that each tupled sample, one per topic, holds a score for each
/// system.
///
/// # Errors
///
/// * [`ElinorError::InvalidArgument`] if the length of a sample is not the
///   number of systems.
pub fn check_sample_lengths(lens: &[usize], n_systems: usize) -> (r: Result<(), ElinorError>)
    ensures
        r is Ok <==> (forall|i: int| 0 <= i < lens.len() ==> lens[i] == n_systems),
        r matches Err(e) ==> (e matches ElinorError::InvalidArgument(m)
            && m@ == sample_length_message()),
{
    let mut i: usize = 0;
    while i < lens.len()
        invariant
            i <= lens.len(),
            forall|k: int| 0 <= k < i ==> lens[k] == n_systems,
        decreases lens.len() - i,
    {
        if lens[i] != n_systems {
            return Err(ElinorError::InvalidArgument(
                String::from_str("The length of each sample must be equal to the number of systems."),
            ));
        }
        i = i + 1;
    }
    Ok(())
}

} // verus!
