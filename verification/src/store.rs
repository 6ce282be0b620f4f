//! The collections of outside crates that hold the runtime's data: the arenas are
//! slabs, the pending set is an `IndexSet`, the three maps are papaya maps.
//!
//! What each of them holds has a name here, and the functions below say what one
//! call of the outside crate does to it.
use vstd::prelude::*;

use indexmap::IndexSet;
use papaya::HashMap;
use slab::Slab;

use crate::arena::effect_arena::EffectId;
use crate::arena::effect_arena::EffectMetadata;
use crate::arena::signal_arena::SignalMetadata;
use crate::hash::FastHashBuilder;
use crate::model;

verus! {

/// The slab of the slab crate.
#[verifier::external_type_specification]
#[verifier::external_body]
#[verifier::reject_recursive_types(T)]
pub struct ExSlab<T>(Slab<T>);

/// The insertion-ordered set of the indexmap crate.
#[verifier::external_type_specification]
#[verifier::external_body]
#[verifier::reject_recursive_types(T)]
#[verifier::reject_recursive_types(S)]
pub struct ExIndexSet<T, S>(IndexSet<T, S>);

/// The concurrent map of the papaya crate.
#[verifier::external_type_specification]
#[verifier::external_body]
#[verifier::reject_recursive_types(K)]
#[verifier::reject_recursive_types(V)]
#[verifier::reject_recursive_types(S)]
pub struct ExPapayaMap<K, V, S>(HashMap<K, V, S>);

// ---------------------------------------------------------------------------
// The signal arena
// ---------------------------------------------------------------------------

/// The entries of a slab of signals: `None` where an entry is vacant.
pub uninterp spec fn signal_slots(s: Slab<SignalMetadata>) -> Seq<Option<SignalMetadata>>;

/// `Slab::new`: a slab without entries.
#[verifier::external_body]
pub(crate) fn new_signal_slab() -> (r: Slab<SignalMetadata>)
    ensures
        signal_slots(r) == Seq::<Option<SignalMetadata>>::empty(),
{
    Slab::new()
}

/// `Slab::get`: the value at `key`, if that entry is occupied.
#[verifier::external_body]
pub(crate) fn signal_get(s: &Slab<SignalMetadata>, key: usize) -> (r: Option<&SignalMetadata>)
    ensures
        match r {
            Some(m) => key < signal_slots(*s).len() && signal_slots(*s)[key as int] == Some(*m),
            None => key < signal_slots(*s).len() ==> signal_slots(*s)[key as int] is None,
        },
{
    s.get(key)
}

/// `Slab::get_mut`: the value at `key`, if that entry is occupied, to be changed
/// in place.
#[verifier::external_body]
pub(crate) fn signal_get_mut(s: &mut Slab<SignalMetadata>, key: usize) -> (r: Option<
    &mut SignalMetadata,
>)
    ensures
        match r {
            Some(m) => key < signal_slots(*old(s)).len() && signal_slots(*old(s))[key as int]
                == Some(*m) && signal_slots(*final(s)) == signal_slots(*old(s)).update(
                key as int,
                Some(*final(m)),
            ),
            None => (key < signal_slots(*old(s)).len() ==> signal_slots(*old(s))[key as int]
                is None) && signal_slots(*final(s)) == signal_slots(*old(s)),
        },
{
    s.get_mut(key)
}

/// `Slab::vacant_entry` and the `key` and `insert` of what it returns: the value
/// fills the vacant entry at `key`, or a new entry at the end.
#[verifier::external_body]
pub(crate) fn signal_insert(s: &mut Slab<SignalMetadata>, m: SignalMetadata) -> (key: usize)
    ensures
        key <= signal_slots(*old(s)).len(),
        key < signal_slots(*old(s)).len() ==> signal_slots(*old(s))[key as int] is None
            && signal_slots(*final(s)) == signal_slots(*old(s)).update(key as int, Some(m)),
        key == signal_slots(*old(s)).len() ==> signal_slots(*final(s)) == signal_slots(
            *old(s),
        ).push(Some(m)),
{
    let entry = s.vacant_entry();
    let key = entry.key();
    entry.insert(m);
    key
}

/// `Slab::contains`: whether the entry at `key` is occupied.
#[verifier::external_body]
pub(crate) fn signal_contains(s: &Slab<SignalMetadata>, key: usize) -> (r: bool)
    ensures
        r == (key < signal_slots(*s).len() && signal_slots(*s)[key as int] is Some),
{
    s.contains(key)
}

/// `Slab::remove`, which panics on a vacant entry: the value at `key`, whose entry
/// is vacant afterwards.
#[verifier::external_body]
pub(crate) fn signal_remove(s: &mut Slab<SignalMetadata>, key: usize) -> (r: SignalMetadata)
    requires
        key < signal_slots(*old(s)).len(),
        signal_slots(*old(s))[key as int] is Some,
    ensures
        signal_slots(*old(s))[key as int] == Some(r),
        signal_slots(*final(s)) == signal_slots(*old(s)).update(key as int, None),
{
    s.remove(key)
}

// ---------------------------------------------------------------------------
// The effect arena
// ---------------------------------------------------------------------------

/// The entries of a slab of effects: `None` where an entry is vacant.
pub uninterp spec fn effect_slots(s: Slab<EffectMetadata>) -> Seq<Option<EffectMetadata>>;

/// `Slab::new`: a slab without entries.
#[verifier::external_body]
pub(crate) fn new_effect_slab() -> (r: Slab<EffectMetadata>)
    ensures
        effect_slots(r) == Seq::<Option<EffectMetadata>>::empty(),
{
    Slab::new()
}

/// `Slab::get`: the value at `key`, if that entry is occupied.
#[verifier::external_body]
pub(crate) fn effect_get(s: &Slab<EffectMetadata>, key: usize) -> (r: Option<&EffectMetadata>)
    ensures
        match r {
            Some(m) => key < effect_slots(*s).len() && effect_slots(*s)[key as int] == Some(*m),
            None => key < effect_slots(*s).len() ==> effect_slots(*s)[key as int] is None,
        },
{
    s.get(key)
}

/// `Slab::get_mut`: the value at `key`, if that entry is occupied, to be changed
/// in place.
#[verifier::external_body]
pub(crate) fn effect_get_mut(s: &mut Slab<EffectMetadata>, key: usize) -> (r: Option<
    &mut EffectMetadata,
>)
    ensures
        match r {
            Some(m) => key < effect_slots(*old(s)).len() && effect_slots(*old(s))[key as int]
                == Some(*m) && effect_slots(*final(s)) == effect_slots(*old(s)).update(
                key as int,
                Some(*final(m)),
            ),
            None => (key < effect_slots(*old(s)).len() ==> effect_slots(*old(s))[key as int]
                is None) && effect_slots(*final(s)) == effect_slots(*old(s)),
        },
{
    s.get_mut(key)
}

/// `Slab::vacant_entry` and the `key` and `insert` of what it returns: the value
/// fills the vacant entry at `key`, or a new entry at the end.
#[verifier::external_body]
pub(crate) fn effect_insert(s: &mut Slab<EffectMetadata>, m: EffectMetadata) -> (key: usize)
    ensures
        key <= effect_slots(*old(s)).len(),
        key < effect_slots(*old(s)).len() ==> effect_slots(*old(s))[key as int] is None
            && effect_slots(*final(s)) == effect_slots(*old(s)).update(key as int, Some(m)),
        key == effect_slots(*old(s)).len() ==> effect_slots(*final(s)) == effect_slots(
            *old(s),
        ).push(Some(m)),
{
    let entry = s.vacant_entry();
    let key = entry.key();
    entry.insert(m);
    key
}

/// `Slab::contains`: whether the entry at `key` is occupied.
#[verifier::external_body]
pub(crate) fn effect_contains(s: &Slab<EffectMetadata>, key: usize) -> (r: bool)
    ensures
        r == (key < effect_slots(*s).len() && effect_slots(*s)[key as int] is Some),
{
    s.contains(key)
}

/// `Slab::remove`, which panics on a vacant entry: the value at `key`, whose entry
/// is vacant afterwards.
#[verifier::external_body]
pub(crate) fn effect_remove(s: &mut Slab<EffectMetadata>, key: usize) -> (r: EffectMetadata)
    requires
        key < effect_slots(*old(s)).len(),
        effect_slots(*old(s))[key as int] is Some,
    ensures
        effect_slots(*old(s))[key as int] == Some(r),
        effect_slots(*final(s)) == effect_slots(*old(s)).update(key as int, None),
{
    s.remove(key)
}

// ---------------------------------------------------------------------------
// Sets of effects in insertion order
// ---------------------------------------------------------------------------

/// The members of a set, in its order.
pub uninterp spec fn set_members(s: IndexSet<(u32, u64), FastHashBuilder>) -> Seq<(u32, u64)>;

/// `IndexSet::with_hasher`: a set without members.
#[verifier::external_body]
pub(crate) fn new_set() -> (r: IndexSet<(u32, u64), FastHashBuilder>)
    ensures
        set_members(r) == Seq::<(u32, u64)>::empty(),
{
    IndexSet::with_hasher(FastHashBuilder)
}

/// `IndexSet::insert`: a member that was not there yet comes last, one that was
/// there keeps its place; whether it is new.
#[verifier::external_body]
pub(crate) fn set_insert(s: &mut IndexSet<(u32, u64), FastHashBuilder>, x: (u32, u64)) -> (r: bool)
    ensures
        r == !set_members(*old(s)).contains(x),
        set_members(*final(s)) == model::insert_once(set_members(*old(s)), x),
{
    s.insert(x)
}

/// `IndexSet::swap_remove`: the last member takes the place of the one that goes;
/// whether that was there.
#[verifier::external_body]
pub(crate) fn set_swap_remove(s: &mut IndexSet<(u32, u64), FastHashBuilder>, x: (u32, u64)) -> (r: bool)
    ensures
        r == set_members(*old(s)).contains(x),
        set_members(*final(s)) == model::swap_removed(set_members(*old(s)), x),
{
    s.swap_remove(&x)
}

/// `IndexSet::drain` over the full range: all members, in order; none is left.
#[verifier::external_body]
pub(crate) fn set_drain(s: &mut IndexSet<(u32, u64), FastHashBuilder>) -> (r: Vec<(u32, u64)>)
    ensures
        r@ == set_members(*old(s)),
        set_members(*final(s)) == Seq::<(u32, u64)>::empty(),
{
    s.drain(..).collect()
}

/// `IndexSet::pop`: the last member, if there is one, which goes.
#[verifier::external_body]
pub(crate) fn set_pop(s: &mut IndexSet<(u32, u64), FastHashBuilder>) -> (r: Option<(u32, u64)>)
    ensures
        match r {
            Some(x) => set_members(*old(s)).len() > 0 && x == set_members(*old(s)).last()
                && set_members(*final(s)) == set_members(*old(s)).drop_last(),
            None => set_members(*old(s)).len() == 0 && set_members(*final(s)) == set_members(
                *old(s),
            ),
        },
{
    s.pop()
}

// ---------------------------------------------------------------------------
// Maps
// ---------------------------------------------------------------------------

/// What a map from effects to their parents holds.
pub uninterp spec fn parent_links(m: HashMap<(u32, u64), EffectId>) -> Map<(u32, u64), EffectId>;

/// `papaya::HashMap::new`: a map without entries.
#[verifier::external_body]
pub(crate) fn new_links() -> (r: HashMap<(u32, u64), EffectId>)
    ensures
        (parent_links(r) == Map::<(u32, u64), EffectId>::empty()),
{
    HashMap::new()
}

/// `HashMapRef::get` of papaya: the value under `k`, if there is one.
#[verifier::external_body]
pub(crate) fn link_get(m: &HashMap<(u32, u64), EffectId>, k: (u32, u64)) -> (r: Option<EffectId>)
    ensures
        r == (if parent_links(*m).contains_key(k) {
            Some(parent_links(*m)[k])
        } else {
            None
        }),
{
    m.pin().get(&k).copied()
}

/// `HashMapRef::insert` of papaya: the value under `k` is `v`.
#[verifier::external_body]
pub(crate) fn link_insert(m: &mut HashMap<(u32, u64), EffectId>, k: (u32, u64), v: EffectId)
    ensures
        parent_links(*final(m)) == parent_links(*old(m)).insert(k, v),
{
    m.pin().insert(k, v);
}

/// `HashMapRef::remove` of papaya: there is nothing under `k`.
#[verifier::external_body]
pub(crate) fn link_remove(m: &mut HashMap<(u32, u64), EffectId>, k: (u32, u64))
    ensures
        parent_links(*final(m)) == parent_links(*old(m)).remove(k),
{
    m.pin().remove(&k);
}

/// What a map to lists of effects holds.
pub uninterp spec fn effect_lists(m: HashMap<(u32, u64), Vec<EffectId>>) -> Map<
    (u32, u64),
    Seq<EffectId>,
>;

/// `papaya::HashMap::new`: a map without entries.
#[verifier::external_body]
pub(crate) fn new_lists() -> (r: HashMap<(u32, u64), Vec<EffectId>>)
    ensures
        (effect_lists(r) == Map::<(u32, u64), Seq<EffectId>>::empty()),
{
    HashMap::new()
}

/// `HashMapRef::get` of papaya: a copy of the list under `k`, if there is one.
#[verifier::external_body]
pub(crate) fn list_get(m: &HashMap<(u32, u64), Vec<EffectId>>, k: (u32, u64)) -> (r: Option<
    Vec<EffectId>,
>)
    ensures
        match r {
            Some(v) => effect_lists(*m).contains_key(k) && effect_lists(*m)[k] == v@,
            None => !effect_lists(*m).contains_key(k),
        },
{
    m.pin().get(&k).cloned()
}

/// `HashMapRef::insert` of papaya: the list under `k` is `v`.
#[verifier::external_body]
pub(crate) fn list_insert(
    m: &mut HashMap<(u32, u64), Vec<EffectId>>,
    k: (u32, u64),
    v: Vec<EffectId>,
)
    ensures
        effect_lists(*final(m)) == effect_lists(*old(m)).insert(k, v@),
{
    m.pin().insert(k, v);
}

/// `HashMapRef::remove` of papaya: there is nothing under `k`.
#[verifier::external_body]
pub(crate) fn list_remove(m: &mut HashMap<(u32, u64), Vec<EffectId>>, k: (u32, u64))
    ensures
        effect_lists(*final(m)) == effect_lists(*old(m)).remove(k),
{
    m.pin().remove(&k);
}

} // verus!
