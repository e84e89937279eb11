//! Core of an ERC-4337 bundler: a chain tracker that follows the head of the
//! chain through reorgs, a bundle proposer that selects user operations, and
//! a transaction tracker that follows one account's nonce.

pub mod bundle_proposer;
pub mod chain;
pub mod entry_point;
pub mod events;
pub mod gas;
pub mod groups;
pub mod primitives;
pub mod proposal;
pub mod proposal_laws;
pub mod simulation;
pub mod transaction_tracker;
pub mod uint;
pub mod user_operation;
