//! Standalone, flexible fine-grained reactivity.
//!
//! Signals are lightweight markers; values stay with their owners. Effects run again
//! when a signal they have read changes, computed values remember what they computed,
//! and transactions batch several changes into one round of effects.
//!
//! # Core types
//!
//! - [`Signal`]: call [`emit`](Signal::emit) when the value behind it has changed.
//! - [`Effect`]: a function that runs when it is created, and again when what it has read
//!   changes.
//! - [`Computed`]: a cached value that tells its readers only when it has changed.
//! - [`Transaction`]: several changes, one round of effects.
//!
//! All of them work on a [`Runtime`]. The runtime does not call the functions of its
//! users: it hands them out, one by one, to a host that calls them and hands them back
//! (see [`machine`]). What each operation does is written down in [`model`], and what
//! holds of them together in [`laws`].
pub mod arena;
pub mod computed;
pub mod effect;
pub mod executor;
pub mod hash;
pub mod laws;
pub mod lists;
pub mod machine;
pub mod model;
pub mod runtime;
pub mod signal;
pub mod store;
pub mod transaction;

pub use crate::computed::Computed;
pub use crate::effect::flush_effects;
pub use crate::effect::is_processing_scheduled;
pub use crate::effect::untracked;
pub use crate::effect::Effect;
pub use crate::executor::EffectLoop;
pub use crate::executor::DEFAULT_BUDGET;
pub use crate::executor::DEFAULT_DEBOUNCE;
pub use crate::executor::DEFAULT_MAX_DEBOUNCE;
pub use crate::runtime::Runtime;
pub use crate::signal::Signal;
pub use crate::transaction::Transaction;
