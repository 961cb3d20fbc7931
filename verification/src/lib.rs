//! Coordinator core for a privacy-preserving federated-learning protocol.
//!
//! Participants submit masked model updates; the coordinator validates each
//! message, aggregates the masked contributions componentwise, and tracks the
//! dictionaries (sum, seed, mask) that let the aggregate be unmasked without
//! ever exposing an individual contribution.

pub mod aggregation;
pub mod bignum;
pub mod dicts;
pub mod mask;
pub mod mask_codec;
pub mod events;
pub mod preprocessor;
pub mod state;
pub mod sum2;
