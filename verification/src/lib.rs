//! Core bookkeeping engine for a hybrid asset that is at once a divisible
//! fungible balance and a collection of discrete, individually owned items:
//! every whole unit of the fungible balance corresponds to exactly one item.
//!
//! The crate keeps the two views consistent across every mutation path. It
//! holds the item registry with its owner index, the FIFO pool of recycled
//! item ids, the approval and operator state machine, the reconciliation
//! engine that turns fungible balance changes into item mints and burns, the
//! time-boxed and allow-listed mint gate, and the pre-transfer hook that the
//! external fungible ledger drives. All state is carried in explicit handles
//! passed into every operation, so the engine runs without a live host.

pub mod error;
pub mod expiration;
pub mod reconcile;
pub mod registry;
pub mod token_id;
pub mod operators;
pub mod approvals;
pub mod merkle;
pub mod mint_group;
pub mod gate;
pub mod config;
pub mod denom;
pub mod ft;
pub mod nft;
pub mod hook;
pub mod queries;
pub mod laws;
