//! Elinor (**E**valuation **l**ibrary in **in**f**o**rmation **r**etrieval) is a library
//! for evaluating information retrieval (IR) systems.
//!
//! Gold relevance judgments and predicted relevance scores are kept in
//! [`relevance::RelevanceStore`]s, keyed by query id and document id.
//! Predicted scores are kept as integers that order documents in the same way
//! as the predicted scores themselves.
pub mod errors;
pub mod evaluation;
pub mod json;
pub mod keys;
pub mod maps;
pub mod metrics;
pub mod qrels;
pub mod rankings;
pub mod statistical_tests;
pub mod relevance;
pub mod run;
pub mod text;
pub mod trec;

use vstd::prelude::*;

pub use errors::ElinorError;
pub use relevance::{Record, Relevance, RelevanceStore, RelevanceStoreBuilder};

verus! {

/// Data type to store a gold relevance score.
/// In binary relevance, 0 means non-relevant and the others mean relevant.
pub type GoldScore = u32;

/// Alias of [`GoldScore`].
pub type TrueScore = GoldScore;

/// Data type to store a predicted relevance score, as an integer key:
/// a higher key means a higher predicted score.
pub type PredScore = u64;

/// The key of a predicted score from the bits of its `f64` value: the order
/// of keys is that of the values, with `-0.0` and `0.0` one key (a number
/// with the sign bit set is negative, and a larger magnitude is a larger
/// pattern of bits).
pub open spec fn pred_key_spec(bits: u64) -> u64 {
    if bits == 0x8000_0000_0000_0000u64 {
        0x8000_0000_0000_0000u64
    } else if bits >= 0x8000_0000_0000_0000u64 {
        !bits
    } else {
        bits | 0x8000_0000_0000_0000u64
    }
}

/// Computes the key of a predicted score from the bits of its `f64` value.
pub fn pred_score_from_bits(bits: u64) -> (r: PredScore)
    ensures
        r == pred_key_spec(bits),
{
    if bits == 0x8000_0000_0000_0000u64 {
        0x8000_0000_0000_0000u64
    } else if bits >= 0x8000_0000_0000_0000u64 {
        !bits
    } else {
        bits | 0x8000_0000_0000_0000u64
    }
}

/// Data structure to store gold relevance scores.
pub type GoldRelStore<K> = RelevanceStore<K, GoldScore>;

/// Alias of [`GoldRelStore`].
pub type TrueRelStore<K> = GoldRelStore<K>;

/// Builder for [`GoldRelStore`].
pub type GoldRelStoreBuilder<K> = RelevanceStoreBuilder<K, GoldScore>;

/// Alias of [`GoldRelStoreBuilder`].
pub type TrueRelStoreBuilder<K> = GoldRelStoreBuilder<K>;

/// Data structure to store predicted relevance scores.
pub type PredRelStore<K> = RelevanceStore<K, PredScore>;

/// Builder for [`PredRelStore`].
pub type PredRelStoreBuilder<K> = RelevanceStoreBuilder<K, PredScore>;

/// Record of a gold relevance score.
pub type GoldRecord<K> = Record<K, GoldScore>;

/// Alias of [`GoldRecord`].
pub type TrueRecord<K> = GoldRecord<K>;

/// Record of a predicted relevance score.
pub type PredRecord<K> = Record<K, PredScore>;

} // verus!
