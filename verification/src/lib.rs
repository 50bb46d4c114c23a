//! Aggregated sync-committee contributions for a beacon-chain consensus
//! client: construction from a single signed message, pairwise aggregation
//! over disjoint bit sets, and the canonical SSZ and Merkle encodings.

pub mod bits;
pub mod contribution;
pub mod json;
pub mod merkle;
pub mod signature;
pub mod ssz;

pub use bits::BitVector;
pub use bits::BitVectorError;
pub use contribution::Error;
pub use contribution::Hash256;
pub use contribution::SyncCommitteeContribution;
pub use contribution::SyncCommitteeMessage;
pub use contribution::SyncContributionData;
pub use signature::AggregateSignature;
pub use signature::Signature;
