//! Folding-based aggregation of Groth16 proofs over BN254.
pub mod curve;
pub mod encoding;
pub mod error;
pub mod field;
pub mod folding;
pub mod groth16;
pub mod hash;
pub mod ivc;

pub use curve::{G1, G2, GT};
pub use error::{SnarkFoldError, SnarkFoldResult};
pub use field::FieldElement;
pub use hash::SnarkFoldHash;
pub use folding::{verify_relaxed, AugmentedGroth16Folder};
pub use groth16::{
    AugmentedRelaxedInstance, AugmentedRelaxedProof, CrossTerms, GrothVerifyingKey, Instance, Proof,
};
pub use ivc::{aggregate, verify_aggregated, AggregatedProof, Aggregator, FoldStep};
