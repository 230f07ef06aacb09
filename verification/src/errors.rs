//! Error handling for Elinor.
use vstd::prelude::*;

verus! {

/// Error types for Elinor.
#[derive(Debug, Clone, PartialEq, Eq)]
pub enum ElinorError {
    /// Error when an entry is duplicated.
    DuplicateEntry(String),
    /// Error when an entry is missing.
    MissingEntry(String),
    /// Error when the computation is uncomputable.
    Uncomputable(String),
    /// Error when the argument is invalid.
    InvalidArgument(String),
    /// Error when the format is invalid.
    InvalidFormat(String),
}

impl ElinorError {
    /// The message that the error carries.
    pub fn message(&self) -> (r: &String)
        ensures
            *r == match self {
                ElinorError::DuplicateEntry(m) => *m,
                ElinorError::MissingEntry(m) => *m,
                ElinorError::Uncomputable(m) => *m,
                ElinorError::InvalidArgument(m) => *m,
                ElinorError::InvalidFormat(m) => *m,
            },
    {
        match self {
            ElinorError::DuplicateEntry(m) => m,
            ElinorError::MissingEntry(m) => m,
            ElinorError::Uncomputable(m) => m,
            ElinorError::InvalidArgument(m) => m,
            ElinorError::InvalidFormat(m) => m,
        }
    }
}

/// Specialized result type for Elinor.
pub type Result<T> = core::result::Result<T, ElinorError>;

} // verus!
