use std::hash::BuildHasher;

use reaktiv::arena::effect_arena::{
    effect_arena_insert, effect_arena_remove, EffectMetadata, ReactiveState,
};
use reaktiv::arena::signal_arena::{
    signal_arena_insert, signal_arena_remove, SignalId, SignalMetadata,
};
use reaktiv::hash::FastHashBuilder;
use reaktiv::runtime::Runtime;

#[test]
fn effect_arena_stale_access_returns_none() {
    let mut rt = Runtime::new();
    let metadata = EffectMetadata::new();
    let id = effect_arena_insert(&mut rt, metadata);

    effect_arena_remove(&mut rt, id);

    // All operations should return None for stale ID or defaults
    assert!(id.with_sources(&rt, |_| ()).is_none());
    assert_eq!(id.state(&rt), ReactiveState::Clean); // Returns default for stale access
    assert_eq!(id.add_source(&mut rt, SignalId::new(1)), None);
}

#[test]
fn signal_arena_stale_access_returns_none() {
    let mut rt = Runtime::new();
    let metadata = SignalMetadata::new();
    let id = signal_arena_insert(&mut rt, metadata);

    signal_arena_remove(&mut rt, id);

    // All operations should return None for stale ID
    assert!(id.with_subscribers(&rt, |_| ()).is_none());
}

#[test]
fn fast_hash_builder_is_zero_sized() {
    assert_eq!(std::mem::size_of::<FastHashBuilder>(), 0);
}

#[test]
fn fast_hash_builder_is_deterministic() {
    let builder1 = FastHashBuilder;
    let builder2 = FastHashBuilder;

    let hash1 = builder1.hash_one(42u64);
    let hash2 = builder2.hash_one(42u64);

    assert_eq!(hash1, hash2);
}

#[test]
fn the_hasher_is_that_of_the_seed() {
    let expected = foldhash::fast::FixedState::with_seed(reaktiv::hash::SEED);
    assert_eq!(FastHashBuilder.hash_one(42u64), expected.hash_one(42u64));
    assert_eq!(FastHashBuilder.hash_one("signal"), expected.hash_one("signal"));
    let other = foldhash::fast::FixedState::with_seed(1);
    assert_ne!(FastHashBuilder.hash_one(42u64), other.hash_one(42u64));
}
