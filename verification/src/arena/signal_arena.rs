//! Storage for signal metadata.
use vstd::prelude::*;

use crate::arena::effect_arena;
use crate::arena::effect_arena::EffectId;
use crate::arena::generations;
use crate::lists;
use crate::model::facts;
use crate::model::graph;
use crate::model::spread;
use crate::model::State;
use crate::runtime::Runtime;
use crate::store;

verus! {

/// Unique identifier of a signal node: its slot in the arena, and how many signals that
/// slot has held before it.
///
/// A signal that is removed from the arena leaves its identifier stale. Access
/// through a stale identifier finds nothing, even when another signal has the slot.
#[derive(Clone, Copy, Debug, PartialEq, Eq, Hash, Structural)]
pub struct SignalId(pub u32, pub u64);

/// Metadata of a signal: the effects to tell of a change.
///
/// The value of a signal is kept elsewhere, by its owner.
pub struct SignalMetadata {
    /// The subscribers, each of them once, in the order in which they came.
    pub subscribers: Vec<EffectId>,
}

impl View for SignalMetadata {
    type V = Seq<EffectId>;

    open spec fn view(&self) -> Seq<EffectId> {
        self.subscribers@
    }
}

impl SignalMetadata {
    /// Metadata of a signal without subscribers.
    pub fn new() -> (r: Self)
        ensures
            r@ == Seq::<EffectId>::empty(),
    {
        SignalMetadata { subscribers: Vec::new() }
    }
}

impl Default for SignalMetadata {
    fn default() -> (r: Self)
        ensures
            r@ == Seq::<EffectId>::empty(),
    {
        Self::new()
    }
}

// ---------------------------------------------------------------------------
// Writers
// ---------------------------------------------------------------------------

/// Call a function with the effects that write a signal. `None` if no effect writes it.
pub fn with_signal_writers<F, R>(rt: &Runtime, signal_id: SignalId, f: F) -> (r: Option<R>) where
    F: FnOnce(&Vec<EffectId>) -> R,

    requires
        forall|v: Vec<EffectId>|
            v@ == rt@.writers_of(signal_id) ==> #[trigger] f.requires((&v,)),
    ensures
        r is Some <==> rt@.writers_of(signal_id).len() > 0,
        r is Some ==> exists|v: Vec<EffectId>, x: R|
            r == Some(x) && v@ == rt@.writers_of(signal_id) && #[trigger] f.ensures((&v,), x),
{
    let v = writers_of(rt, signal_id);
    if v.len() > 0 {
        let out = f(&v);
        proof {
            assert(f.ensures((&v,), out));
        }
        Some(out)
    } else {
        None
    }
}

/// The effects that write a signal.
pub(crate) fn writers_of(rt: &Runtime, signal_id: SignalId) -> (r: Vec<EffectId>)
    ensures
        r@ == rt@.writers_of(signal_id),
{
    match store::list_get(&rt.writers, (signal_id.0, signal_id.1)) {
        Some(v) => v,
        None => Vec::new(),
    }
}

/// Register an effect as a writer of a signal.
pub fn add_signal_writer(rt: &mut Runtime, signal_id: SignalId, effect_id: EffectId)
    ensures
        final(rt)@ == old(rt)@.add_writer(signal_id, effect_id),
{
    let mut v = writers_of(rt, signal_id);
    lists::insert_once(&mut v, effect_id);
    store::list_insert(&mut rt.writers, (signal_id.0, signal_id.1), v);
}

/// Remove an effect from the writers of a signal.
pub fn remove_signal_writer(rt: &mut Runtime, signal_id: SignalId, effect_id: EffectId)
    ensures
        final(rt)@ == old(rt)@.remove_writer(signal_id, effect_id),
{
    let v = writers_of(rt, signal_id);
    let rest = lists::without(&v, effect_id);
    if rest.len() == 0 {
        store::list_remove(&mut rt.writers, (signal_id.0, signal_id.1));
    } else {
        store::list_insert(&mut rt.writers, (signal_id.0, signal_id.1), rest);
    }
}

/// Remove an effect from the writers of several signals.
pub(crate) fn remove_writer_of_all(rt: &mut Runtime, outputs: &Vec<SignalId>, effect_id: EffectId)
    ensures
        final(rt)@ == (State {
            writers: graph::unwritten(old(rt)@.writers, outputs@, effect_id),
            ..old(rt)@
        }),
{
    let mut i: usize = 0;
    proof {
        facts::lemma_unwritten_none(rt@, effect_id);
        assert(outputs@.take(0) =~= Seq::empty());
    }
    while i < outputs.len()
        invariant
            i <= outputs.len(),
            rt@ == (State {
                writers: graph::unwritten(old(rt)@.writers, outputs@.take(i as int), effect_id),
                ..old(rt)@
            }),
        decreases outputs.len() - i,
    {
        proof {
            facts::lemma_unwritten_push(
                old(rt)@,
                outputs@.take(i as int),
                outputs@[i as int],
                effect_id,
            );
            assert(outputs@.take(i + 1) =~= outputs@.take(i as int).push(outputs@[i as int]));
        }
        remove_signal_writer(rt, outputs[i], effect_id);
        i = i + 1;
    }
    proof {
        assert(outputs@.take(i as int) =~= outputs@);
    }
}

// ---------------------------------------------------------------------------
// Access through an identifier
// ---------------------------------------------------------------------------

impl SignalId {
    /// The identifier of the first signal in a slot.
    pub fn new(index: u32) -> (r: Self)
        ensures
            r == SignalId(index, 0),
    {
        SignalId(index, 0)
    }

    /// The index of the arena slot.
    pub fn index(self) -> (r: usize)
        ensures
            r == self.0,
    {
        self.0 as usize
    }

    /// The metadata of the signal.
    pub(crate) fn get(self, rt: &Runtime) -> (r: Option<&SignalMetadata>)
        ensures
            match r {
                Some(m) => rt@.has_signal(self) && rt@.subscribers(self) == m@,
                None => !rt@.has_signal(self),
            },
    {
        if generations::at(&rt.signal_gens, self.index()) == self.1 {
            store::signal_get(&rt.signals, self.index())
        } else {
            None
        }
    }

    /// The metadata of the signal, to be changed in place.
    pub(crate) fn get_mut(self, rt: &mut Runtime) -> (r: Option<&mut SignalMetadata>)
        ensures
            match r {
                Some(m) => {
                    &&& old(rt)@.has_signal(self)
                    &&& old(rt)@.subscribers(self) == m@
                    &&& final(rt)@ == old(rt)@.put_subscribers(self, final(m)@)
                },
                None => !old(rt)@.has_signal(self) && final(rt)@ == old(rt)@,
            },
    {
        if generations::at(&rt.signal_gens, self.index()) == self.1 {
            store::signal_get_mut(&mut rt.signals, self.index())
        } else {
            None
        }
    }

    /// Call a function with the metadata of the signal. `None` if the signal is stale.
    pub fn with<F, R>(self, rt: &Runtime, f: F) -> (r: Option<R>) where
        F: FnOnce(&SignalMetadata) -> R,

        requires
            forall|m: SignalMetadata|
                rt@.has_signal(self) && m@ == rt@.subscribers(self) ==> #[trigger] f.requires(
                    (&m,),
                ),
        ensures
            r is Some <==> rt@.has_signal(self),
            r is Some ==> exists|m: SignalMetadata, x: R|
                r == Some(x) && m@ == rt@.subscribers(self) && #[trigger] f.ensures((&m,), x),
    {
        match self.get(rt) {
            Some(m) => {
                let out = f(m);
                proof {
                    assert(f.ensures((m,), out));
                }
                Some(out)
            },
            None => None,
        }
    }

    /// Add a subscriber; a stale signal has none.
    pub fn add_subscriber(self, rt: &mut Runtime, effect_id: EffectId)
        ensures
            final(rt)@ == old(rt)@.add_subscriber(self, effect_id),
    {
        if let Some(m) = self.get_mut(rt) {
            lists::insert_once(&mut m.subscribers, effect_id);
        }
    }

    /// Remove a subscriber.
    pub fn remove_subscriber(self, rt: &mut Runtime, effect_id: EffectId)
        ensures
            final(rt)@ == old(rt)@.remove_subscriber(self, effect_id),
    {
        if let Some(m) = self.get_mut(rt) {
            m.subscribers = lists::without(&m.subscribers, effect_id);
        }
    }

    /// Call a function with the subscribers. `None` if the signal is stale.
    pub fn with_subscribers<F, R>(self, rt: &Runtime, f: F) -> (r: Option<R>) where
        F: FnOnce(&Vec<EffectId>) -> R,

        requires
            forall|v: Vec<EffectId>|
                rt@.has_signal(self) && v@ == rt@.subscribers(self) ==> #[trigger] f.requires(
                    (&v,),
                ),
        ensures
            r is Some <==> rt@.has_signal(self),
            r is Some ==> exists|v: Vec<EffectId>, x: R|
                r == Some(x) && v@ == rt@.subscribers(self) && #[trigger] f.ensures((&v,), x),
    {
        match self.get(rt) {
            Some(m) => {
                let out = f(&m.subscribers);
                proof {
                    assert(f.ensures((&m.subscribers,), out));
                }
                Some(out)
            },
            None => None,
        }
    }

    /// A copy of the list of subscribers; of a stale signal, the empty list.
    pub(crate) fn subscribers(self, rt: &Runtime) -> (r: Vec<EffectId>)
        ensures
            r@ == rt@.subscribers(self),
    {
        match self.get(rt) {
            Some(m) => lists::copy(&m.subscribers),
            None => Vec::new(),
        }
    }
}

/// Remove an effect from the subscribers of several signals.
pub(crate) fn remove_subscriber_of_all(
    rt: &mut Runtime,
    sources: &Vec<SignalId>,
    effect_id: EffectId,
)
    ensures
        final(rt)@ == (State {
            signals: graph::unsubscribed(
                old(rt)@.signals,
                old(rt)@.signal_gens,
                sources@,
                effect_id,
            ),
            ..old(rt)@
        }),
{
    let mut i: usize = 0;
    proof {
        facts::lemma_unsubscribed_none(rt@, effect_id);
        assert(sources@.take(0) =~= Seq::empty());
    }
    while i < sources.len()
        invariant
            i <= sources.len(),
            rt@ == (State {
                signals: graph::unsubscribed(
                    old(rt)@.signals,
                    old(rt)@.signal_gens,
                    sources@.take(i as int),
                    effect_id,
                ),
                ..old(rt)@
            }),
        decreases sources.len() - i,
    {
        proof {
            facts::lemma_unsubscribed_push(
                old(rt)@,
                sources@.take(i as int),
                sources@[i as int],
                effect_id,
            );
            assert(sources@.take(i + 1) =~= sources@.take(i as int).push(sources@[i as int]));
        }
        sources[i].remove_subscriber(rt, effect_id);
        i = i + 1;
    }
    proof {
        assert(sources@.take(i as int) =~= sources@);
    }
}

// ---------------------------------------------------------------------------
// The arena
// ---------------------------------------------------------------------------

/// Insert a signal into the arena and return its identifier: the number of a vacant slot
/// as a `u32`, and how many signals that slot has held before.
pub fn signal_arena_insert(rt: &mut Runtime, metadata: SignalMetadata) -> (r: SignalId)
    ensures
        exists|key: usize|
            #![trigger old(rt)@.vacant_signal(key as nat)]
            old(rt)@.vacant_signal(key as nat) && r == old(rt)@.signal_at(key as u32)
                && final(rt)@ == old(rt)@.insert_signal(key as nat, metadata@),
{
    let key = store::signal_insert(&mut rt.signals, metadata);
    proof {
        assert(old(rt)@.vacant_signal(key as nat));
    }
    let slot: u32 = #[verifier::truncate]
    (key as u32);
    SignalId(slot, generations::at(&rt.signal_gens, slot as usize))
}

/// Remove a signal from the arena; what was there, if anything.
pub fn signal_arena_remove(rt: &mut Runtime, id: SignalId) -> (r: Option<SignalMetadata>)
    ensures
        r is Some <==> old(rt)@.has_signal(id),
        r is Some ==> r->0@ == old(rt)@.subscribers(id),
        final(rt)@ == old(rt)@.remove_signal(id),
{
    if generations::at(&rt.signal_gens, id.index()) == id.1 && store::signal_contains(
        &rt.signals,
        id.index(),
    ) {
        generations::bump(&mut rt.signal_gens, id.index());
        Some(store::signal_remove(&mut rt.signals, id.index()))
    } else {
        None
    }
}

/// Call a function with the arena itself.
pub fn with_signal_arena<F, R>(rt: &Runtime, f: F) -> (r: R) where
    F: FnOnce(&slab::Slab<SignalMetadata>) -> R,

    requires
        f.requires((&rt.signals,)),
    ensures
        f.ensures((&rt.signals,), r),
{
    f(&rt.signals)
}

// ---------------------------------------------------------------------------
// Marking
// ---------------------------------------------------------------------------

impl SignalId {
    /// Mark all subscribers, and what depends on them, Check as far as they are Clean.
    pub fn mark_subscribers_check(self, rt: &mut Runtime)
        ensures
            final(rt)@ == old(rt)@.check_list(old(rt)@.subscribers(self)),
        decreases spread::clean_count(old(rt)@.effects), 1nat,
    {
        let subs = self.subscribers(rt);
        let mut i: usize = 0;
        proof {
            assert(subs@.skip(0) =~= subs@);
        }
        while i < subs.len()
            invariant
                i <= subs.len(),
                spread::clean_count(rt@.effects) <= spread::clean_count(old(rt)@.effects),
                rt@.check_list(subs@.skip(i as int)) == old(rt)@.check_list(subs@),
            decreases subs.len() - i,
        {
            proof {
                facts::lemma_check_list_step(rt@, subs@.skip(i as int));
                facts::lemma_check_effect(rt@, subs@[i as int]);
                assert(subs@.skip(i as int).drop_first() =~= subs@.skip(i + 1));
            }
            subs[i].mark_check_recursive(rt);
            i = i + 1;
        }
    }

    /// Tell all subscribers that this signal has changed: each is marked Dirty, and
    /// what depends on it Check.
    pub fn notify_subscribers(self, rt: &mut Runtime)
        ensures
            final(rt)@ == old(rt)@.notify_subscribers(self, false),
    {
        notify_all(rt, self, false);
    }
}

/// Mark what depends on an effect Check, as far as it is Clean.
pub(crate) fn mark_successors_check(rt: &mut Runtime, effect_id: EffectId)
    ensures
        final(rt)@ == old(rt)@.check_list(old(rt)@.successors(effect_id)),
    decreases spread::clean_count(old(rt)@.effects), 2nat,
{
    let (_, outputs) = effect_id.signals(rt);
    let ghost start = rt@;
    let mut i: usize = 0;
    proof {
        assert(outputs@.take(0) =~= Seq::empty());
        facts::lemma_no_successors(start);
    }
    while i < outputs.len()
        invariant
            i <= outputs.len(),
            start == old(rt)@,
            rt@ == start.check_list(facts::readers(start, outputs@.take(i as int))),
        decreases outputs.len() - i,
    {
        let ghost so_far = facts::readers(start, outputs@.take(i as int));
        proof {
            facts::lemma_check_list(start, so_far);
            facts::lemma_checked_links(start, rt@, effect_id);
            assert(outputs@.take(i + 1) =~= outputs@.take(i as int).push(outputs@[i as int]));
            facts::lemma_readers_push(start, outputs@.take(i as int), outputs@[i as int]);
            facts::lemma_check_list_add(start, so_far, start.subscribers(outputs@[i as int]));
        }
        outputs[i].mark_subscribers_check(rt);
        i = i + 1;
    }
    proof {
        assert(outputs@.take(i as int) =~= outputs@);
    }
}

/// Tell the subscribers of a signal that it has changed; if the change comes from
/// the UI, those that are not told of such changes are left out.
pub(crate) fn notify_all(rt: &mut Runtime, signal_id: SignalId, is_from_ui: bool)
    ensures
        final(rt)@ == old(rt)@.notify_subscribers(signal_id, is_from_ui),
{
    let subs = signal_id.subscribers(rt);
    notify_effects(rt, &subs, is_from_ui);
}

/// Tell effects that something they read has changed.
pub(crate) fn notify_effects(rt: &mut Runtime, subs: &Vec<EffectId>, is_from_ui: bool)
    ensures
        final(rt)@ == old(rt)@.notify_list(subs@, is_from_ui),
{
    let mut i: usize = 0;
    proof {
        assert(subs@.skip(0) =~= subs@);
    }
    while i < subs.len()
        invariant
            i <= subs.len(),
            rt@.notify_list(subs@.skip(i as int), is_from_ui) == old(rt)@.notify_list(
                subs@,
                is_from_ui,
            ),
        decreases subs.len() - i,
    {
        let effect_id = subs[i];
        proof {
            assert(subs@.skip(i as int).drop_first() =~= subs@.skip(i + 1));
        }
        if !(is_from_ui && effect_id.is_ui_updates_only(rt)) {
            effect_arena::mark_effect_pending(rt, effect_id);
            mark_successors_check(rt, effect_id);
        }
        i = i + 1;
    }
}

} // verus!
