//! Zero-sized hash builder for the hash collections of the runtime.
//!
//! Provides `FastHashBuilder`, a zero-sized `BuildHasher` that uses foldhash
//! with a fixed seed. Suitable for internal data structures where HashDoS
//! resistance is not needed.
use vstd::prelude::*;

use foldhash::fast::FixedState;
use foldhash::fast::FoldHasher;
use std::hash::BuildHasher;

verus! {

/// The hasher of the foldhash crate. Nothing is known of its inside.
#[verifier::external_type_specification]
#[verifier::external_body]
pub struct ExFoldHasher<'a>(FoldHasher<'a>);

/// The seed that every `FastHashBuilder` hands to foldhash.
pub const SEED: u64 = 0x517cc1b727220a95;

/// A zero-sized `BuildHasher` that uses foldhash with a fixed seed.
///
/// All instances build the same hasher, so the same input has the same hash
/// across all of them.
#[derive(Clone, Copy, Debug, Default)]
pub struct FastHashBuilder;

/// What `FixedState::with_seed(seed).build_hasher()` returns.
pub uninterp spec fn seeded_hasher(seed: u64) -> FoldHasher<'static>;

/// `FixedState::with_seed` of foldhash, and `build_hasher` on what it returns:
/// the hasher is a function of the seed alone.
#[verifier::external_body]
fn build_seeded(seed: u64) -> (r: FoldHasher<'static>)
    ensures
        r == seeded_hasher(seed),
{
    FixedState::with_seed(seed).build_hasher()
}

impl BuildHasher for FastHashBuilder {
    type Hasher = FoldHasher<'static>;

    fn build_hasher(&self) -> (r: Self::Hasher)
        ensures
            r == seeded_hasher(0x517cc1b727220a95),
    {
        build_seeded(SEED)
    }
}

} // verus!
