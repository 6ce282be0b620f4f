//! Storage for the metadata of reactive nodes.
//!
//! - Signal arena: stores `SignalMetadata` (subscribers).
//! - Effect arena: stores `EffectMetadata` (one struct for effects and computeds).
//!
//! `SignalId` and `EffectId` are indices into the two arenas.
pub mod effect_arena;
pub mod generations;
pub mod signal_arena;
