//! Computed values: effects that keep the value they compute, and tell their
//! readers only when it has changed.
use vstd::prelude::*;

use vstd::std_specs::cmp::PartialEqSpec;

use crate::arena::effect_arena;
use crate::arena::effect_arena::EffectFn;
use crate::arena::effect_arena::EffectId;
use crate::arena::effect_arena::EffectMetadata;
use crate::arena::effect_arena::ReactiveState;
use crate::arena::signal_arena;
use crate::arena::signal_arena::SignalId;
use crate::arena::signal_arena::SignalMetadata;
use crate::effect;
use crate::effect::Effect;
use crate::model;
use crate::model::EffectModel;
use crate::model::RunKind;
use crate::model::State;
use crate::runtime::Frame;
use crate::runtime::Runtime;
use crate::signal::Signal;

verus! {

/// Memoized derived value that is recomputed when its dependencies change.
///
/// It is made of an effect that computes the value and a signal that others
/// subscribe to. The callback of the effect computes a value and hands it to
/// [`Computed::store`].
pub struct Computed<T> {
    /// What others subscribe to.
    pub signal: Signal,
    /// What computes the value.
    pub effect: Effect,
    /// The value, once it has been computed.
    pub value: Option<T>,
}

impl State {
    /// A computed value has come into being: its signal at `signal_key`, its effect
    /// at `effect_key`. The effect writes the signal for as long as it lives. Unless
    /// the value is lazy, its first computation begins.
    pub open spec fn create_computed(
        self,
        signal_key: nat,
        effect_key: nat,
        signal: SignalId,
        effect: EffectId,
        m: EffectModel,
        lazy: bool,
    ) -> State {
        let with_signal = self.insert_signal(signal_key, Seq::empty());
        let owner = EffectModel { signals: seq![model::own_link(signal)], ..m };
        if lazy {
            with_signal.create(
                effect_key,
                effect,
                EffectModel { state: ReactiveState::Dirty, ..owner },
            ).add_writer(signal, effect)
        } else {
            with_signal.create(effect_key, effect, owner).add_writer(signal, effect).start(
                effect,
                RunKind::Initial,
            )
        }
    }

    /// The owner of a computed value gives it up.
    pub open spec fn dispose_computed(self, signal: SignalId, effect: EffectId) -> State {
        self.dispose_signal(signal).dispose_effect(effect)
    }
}

/// `c` is a computed value without a value yet, newly made by `callback`.
pub open spec fn made<T>(
    before: State,
    after: State,
    c: Computed<T>,
    callback: EffectFn,
    lazy: bool,
    skippable: bool,
) -> bool {
    &&& c.value is None
    &&& exists|signal_key: usize, effect_key: usize|
        {
            &&& #[trigger] before.vacant_signal(signal_key as nat)
            &&& #[trigger] before.vacant_effect(effect_key as nat)
            &&& c.signal.slot == signal_key as u32
            &&& c.effect.id == before.effect_at(effect_key as u32)
            &&& after == before.create_computed(
                signal_key as nat,
                effect_key as nat,
                before.signal_at(c.signal.slot),
                c.effect.id,
                EffectModel::fresh(Some(callback), skippable, false),
                lazy,
            )
        }
}

impl<T: Clone + PartialEq> Computed<T> {
    /// Create a computed value, and begin its first computation.
    pub fn new(rt: &mut Runtime, callback: EffectFn) -> (r: Self)
        ensures
            made(old(rt)@, final(rt)@, r, callback, false, false),
    {
        Self::new_internal(rt, callback, false, false)
    }

    /// As `new`, for a value whose computation can be deferred under load.
    pub fn new_skippable(rt: &mut Runtime, callback: EffectFn) -> (r: Self)
        ensures
            made(old(rt)@, final(rt)@, r, callback, false, true),
    {
        Self::new_internal(rt, callback, false, true)
    }

    /// Create a computed value that is computed when it is first read.
    pub fn lazy(rt: &mut Runtime, callback: EffectFn) -> (r: Self)
        ensures
            made(old(rt)@, final(rt)@, r, callback, true, false),
    {
        Self::new_internal(rt, callback, true, false)
    }

    /// As `lazy`, for a value whose computation can be deferred under load.
    pub fn lazy_skippable(rt: &mut Runtime, callback: EffectFn) -> (r: Self)
        ensures
            made(old(rt)@, final(rt)@, r, callback, true, true),
    {
        Self::new_internal(rt, callback, true, true)
    }

    /// Create a computed value.
    fn new_internal(rt: &mut Runtime, callback: EffectFn, lazy: bool, skippable: bool) -> (r: Self)
        ensures
            made(old(rt)@, final(rt)@, r, callback, lazy, skippable),
    {
        let signal_id = signal_arena::signal_arena_insert(rt, SignalMetadata::new());
        let ghost with_signal = rt@;
        let parent = effect_arena::current_effect(rt);
        let mut metadata = EffectMetadata::new_with_callback_parent_and_skippable(
            callback,
            parent,
            skippable,
        );
        metadata.set_own_signal(signal_id);
        if lazy {
            metadata.set_state(ReactiveState::Dirty);
        }
        proof {
            assert(metadata@.signals =~= seq![model::own_link(signal_id)]);
        }
        let effect_id = effect_arena::effect_arena_insert(rt, metadata);
        proof {
            assert(forall|k: usize|
                #[trigger] with_signal.vacant_effect(k as nat) ==> old(rt)@.vacant_effect(k as nat));
        }
        effect::adopt(rt, effect_id);
        signal_arena::add_signal_writer(rt, signal_id, effect_id);
        if !lazy {
            rt.push_frame(Frame::Start { effect: effect_id, kind: RunKind::Initial });
        }
        Computed {
            signal: Signal::from_raw(signal_id),
            effect: Effect::from_raw(effect_id),
            value: None,
        }
    }

    /// Begin to bring the value up to date, and to track it as a dependency of the
    /// current effect. When the activity is over, [`Computed::get`] gives the value.
    ///
    /// A stale value is recomputed, unless the current effect depends on it already.
    pub fn refresh(&self, rt: &mut Runtime)
        ensures
            final(rt)@ == old(rt)@.refresh(
                old(rt)@.signal_at(self.signal.slot),
                self.effect.id,
            ),
    {
        let effect_id = self.effect.id();
        let signal_id = self.signal.node_id(rt);
        let current = effect_arena::current_effect(rt);
        let should_recompute = effect_id.needs_work(rt) && match current {
            None => true,
            Some(e) => !e.has_source(rt, signal_id),
        };
        rt.push_frame(Frame::Track { signal: signal_id, effect: current });
        if should_recompute {
            effect_id.update_if_necessary(rt, false);
        }
    }

    /// The value that was computed last.
    pub fn get(&self) -> (r: T)
        requires
            self.value is Some,
        ensures
            call_ensures(T::clone, (&self.value->0,), r),
    {
        self.value.as_ref().unwrap().clone()
    }

    /// Keep a newly computed value, and notify the subscribers if there was none
    /// before or if it differs. Whether they were notified.
    pub fn store(&mut self, rt: &mut Runtime, new_value: T) -> (r: bool)
        ensures
            old(self).value is None ==> r,
            old(self).value is Some && T::obeys_eq_spec() ==> r == !old(self).value->0.eq_spec(
                &new_value,
            ),
            final(self).value == Some(new_value),
            final(self).signal == old(self).signal,
            final(self).effect == old(self).effect,
            final(rt)@ == (if r {
                old(rt)@.notify_subscribers(
                    old(rt)@.signal_at(old(self).signal.slot),
                    false,
                )
            } else {
                old(rt)@
            }),
    {
        let changed = match &self.value {
            Some(old_value) => *old_value != new_value,
            None => true,
        };
        self.value = Some(new_value);
        if changed {
            self.signal.node_id(rt).notify_subscribers(rt);
        }
        changed
    }

    /// Mark the value stale.
    pub fn invalidate(&self, rt: &mut Runtime)
        ensures
            final(rt)@ == old(rt)@.mark_pending(self.effect.id),
    {
        effect_arena::mark_effect_pending(rt, self.effect.id());
    }

    /// The identifier of the signal that others subscribe to.
    pub fn signal_id(&self, rt: &Runtime) -> (r: SignalId)
        ensures
            r == rt@.signal_at(self.signal.slot),
    {
        self.signal.node_id(rt)
    }

    /// The identifier of the effect that computes the value.
    pub fn effect_id(&self) -> (r: EffectId)
        ensures
            r == self.effect.id,
    {
        self.effect.id()
    }

    /// Give the computed value up: first its signal, then its effect.
    pub fn dispose(self, rt: &mut Runtime)
        ensures
            final(rt)@ == old(rt)@.dispose_computed(
                old(rt)@.signal_at(self.signal.slot),
                self.effect.id,
            ),
    {
        self.signal.dispose(rt);
        self.effect.dispose(rt);
    }
}

} // verus!
