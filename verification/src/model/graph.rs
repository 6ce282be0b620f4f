//! The arenas, the pending set and the maps of the model: what one read or one
//! write of them is.
use vstd::prelude::*;

use crate::arena::effect_arena::EffectFn;
use crate::arena::effect_arena::EffectId;
use crate::arena::effect_arena::ReactiveState;
use crate::arena::signal_arena::SignalId;
use crate::model;
use crate::model::EffectModel;
use crate::model::FrameModel;
use crate::model::LocalModel;
use crate::model::State;

verus! {

/// How many occupants slot `i` has had before.
pub open spec fn gen_at(gens: Seq<u64>, i: int) -> u64 {
    if 0 <= i < gens.len() {
        gens[i]
    } else {
        0
    }
}

/// One more, or 0 after the largest number.
pub open spec fn next_gen(g: u64) -> u64 {
    if g == u64::MAX {
        0
    } else {
        (g + 1) as u64
    }
}

/// `gens` when the occupant of slot `i` has left.
pub open spec fn bumped(gens: Seq<u64>, i: int) -> Seq<u64> {
    Seq::new(
        if i < gens.len() {
            gens.len()
        } else {
            (i + 1) as nat
        },
        |j: int|
            if j == i {
                next_gen(gen_at(gens, i))
            } else {
                gen_at(gens, j)
            },
    )
}

/// Some signal of `list` is the one that slot `i` holds, if it holds one.
pub open spec fn signal_hit(list: Seq<SignalId>, gens: Seq<u64>, i: int) -> bool {
    exists|j: int|
        0 <= j < list.len() && (#[trigger] list[j]).0 == i && list[j].1 == gen_at(gens, i)
}

/// Some effect of `list` is the one that slot `i` holds, if it holds one.
pub open spec fn effect_hit(list: Seq<EffectId>, gens: Seq<u64>, i: int) -> bool {
    exists|j: int|
        0 <= j < list.len() && (#[trigger] list[j]).0 == i && list[j].1 == gen_at(gens, i)
}

/// `signals`, where `effect` is no subscriber of the signals in `sources`.
pub open spec fn unsubscribed(
    signals: Seq<Option<Seq<EffectId>>>,
    gens: Seq<u64>,
    sources: Seq<SignalId>,
    effect: EffectId,
) -> Seq<Option<Seq<EffectId>>> {
    Seq::new(
        signals.len(),
        |i: int|
            match signals[i] {
                Some(subs) if signal_hit(sources, gens, i) => Some(model::without(subs, effect)),
                other => other,
            },
    )
}

/// `writers`, where `effect` is no writer of the signals in `outputs`, and no signal has
/// an empty list.
pub open spec fn unwritten(
    writers: Map<SignalId, Seq<EffectId>>,
    outputs: Seq<SignalId>,
    effect: EffectId,
) -> Map<SignalId, Seq<EffectId>> {
    Map::new(
        |g: SignalId|
            writers.contains_key(g) && !(outputs.contains(g) && model::without(
                writers[g],
                effect,
            ).len() == 0),
        |g: SignalId|
            if outputs.contains(g) {
                model::without(writers[g], effect)
            } else {
                writers[g]
            },
    )
}

/// How far along Clean -> Check -> Dirty a state is.
pub open spec fn rank(state: ReactiveState) -> nat {
    match state {
        ReactiveState::Clean => 0,
        ReactiveState::Check => 1,
        ReactiveState::Dirty => 2,
    }
}

impl State {
    // -- Signals ------------------------------------------------------------

    /// The signal is in the arena.
    pub open spec fn has_signal(self, signal: SignalId) -> bool {
        &&& signal.0 < self.signals.len()
        &&& self.signals[signal.0 as int] is Some
        &&& signal.1 == gen_at(self.signal_gens, signal.0 as int)
    }

    /// The signal that a slot of the arena holds, if it holds one.
    pub open spec fn signal_at(self, slot: u32) -> SignalId {
        SignalId(slot, gen_at(self.signal_gens, slot as int))
    }

    /// The subscribers of a signal; none if it is stale.
    pub open spec fn subscribers(self, signal: SignalId) -> Seq<EffectId> {
        if self.has_signal(signal) {
            self.signals[signal.0 as int]->0
        } else {
            Seq::empty()
        }
    }

    /// The state with other subscribers of a live signal.
    pub open spec fn put_subscribers(self, signal: SignalId, subs: Seq<EffectId>) -> State {
        State { signals: self.signals.update(signal.0 as int, Some(subs)), ..self }
    }

    /// `effect` is a subscriber of `signal`, if that is live.
    pub open spec fn add_subscriber(self, signal: SignalId, effect: EffectId) -> State {
        if self.has_signal(signal) {
            self.put_subscribers(signal, model::insert_once(self.subscribers(signal), effect))
        } else {
            self
        }
    }

    /// `effect` is no subscriber of `signal`.
    pub open spec fn remove_subscriber(self, signal: SignalId, effect: EffectId) -> State {
        if self.has_signal(signal) {
            self.put_subscribers(signal, model::without(self.subscribers(signal), effect))
        } else {
            self
        }
    }

    /// `key` is free in the signal arena.
    pub open spec fn vacant_signal(self, key: nat) -> bool {
        key <= self.signals.len() && (key < self.signals.len() ==> self.signals[key as int] is None)
    }

    /// A signal stands at `key` in the arena.
    pub open spec fn insert_signal(self, key: nat, subs: Seq<EffectId>) -> State {
        State {
            signals: if key == self.signals.len() {
                self.signals.push(Some(subs))
            } else {
                self.signals.update(key as int, Some(subs))
            },
            ..self
        }
    }

    /// The signal is in the arena no more.
    pub open spec fn remove_signal(self, signal: SignalId) -> State {
        if self.has_signal(signal) {
            State {
                signals: self.signals.update(signal.0 as int, None),
                signal_gens: bumped(self.signal_gens, signal.0 as int),
                ..self
            }
        } else {
            self
        }
    }

    // -- Effects ------------------------------------------------------------

    /// The effect is in the arena.
    pub open spec fn has_effect(self, effect: EffectId) -> bool {
        &&& effect.0 < self.effects.len()
        &&& self.effects[effect.0 as int] is Some
        &&& effect.1 == gen_at(self.effect_gens, effect.0 as int)
    }

    /// The effect that a slot of the arena holds, if it holds one.
    pub open spec fn effect_at(self, slot: u32) -> EffectId {
        EffectId(slot, gen_at(self.effect_gens, slot as int))
    }

    /// What the arena holds of a live effect.
    pub open spec fn effect(self, effect: EffectId) -> EffectModel
        recommends
            self.has_effect(effect),
    {
        self.effects[effect.0 as int]->0
    }

    /// The state with other metadata of a live effect.
    pub open spec fn put_effect(self, effect: EffectId, m: EffectModel) -> State {
        State { effects: self.effects.update(effect.0 as int, Some(m)), ..self }
    }

    /// `key` is free in the effect arena.
    pub open spec fn vacant_effect(self, key: nat) -> bool {
        key <= self.effects.len() && (key < self.effects.len() ==> self.effects[key as int] is None)
    }

    /// An effect stands at `key` in the arena.
    pub open spec fn insert_effect(self, key: nat, m: EffectModel) -> State {
        State {
            effects: if key == self.effects.len() {
                self.effects.push(Some(m))
            } else {
                self.effects.update(key as int, Some(m))
            },
            ..self
        }
    }

    /// The effect is in the arena no more, nor in the two maps of the hierarchy.
    pub open spec fn remove_effect(self, effect: EffectId) -> State {
        State {
            parents: self.parents.remove(effect),
            children: self.children.remove(effect),
            effects: if self.has_effect(effect) {
                self.effects.update(effect.0 as int, None)
            } else {
                self.effects
            },
            effect_gens: if self.has_effect(effect) {
                bumped(self.effect_gens, effect.0 as int)
            } else {
                self.effect_gens
            },
            ..self
        }
    }

    /// The reactive state of an effect; Clean if it is stale.
    pub open spec fn state_of(self, effect: EffectId) -> ReactiveState {
        if self.has_effect(effect) {
            self.effect(effect).state
        } else {
            ReactiveState::Clean
        }
    }

    /// The state of `effect` is `to`, if it is live.
    pub open spec fn set_state(self, effect: EffectId, to: ReactiveState) -> State {
        if self.has_effect(effect) {
            self.put_effect(effect, EffectModel { state: to, ..self.effect(effect) })
        } else {
            self
        }
    }

    /// The state of `effect` is live and below `to`.
    pub open spec fn upgrades(self, effect: EffectId, to: ReactiveState) -> bool {
        self.has_effect(effect) && rank(self.effect(effect).state) < rank(to)
    }

    /// The state of `effect` is at least `to`, if it is live.
    pub open spec fn upgrade_state(self, effect: EffectId, to: ReactiveState) -> State {
        if self.upgrades(effect, to) {
            self.set_state(effect, to)
        } else {
            self
        }
    }

    /// The effect is live and can be deferred.
    pub open spec fn is_skippable(self, effect: EffectId) -> bool {
        self.has_effect(effect) && self.effect(effect).skippable
    }

    /// The effect is live and not told of changes from the UI.
    pub open spec fn is_ui_only(self, effect: EffectId) -> bool {
        self.has_effect(effect) && self.effect(effect).ui_only
    }

    /// The effect is live and its callback is in the arena.
    pub open spec fn has_callback(self, effect: EffectId) -> bool {
        self.has_effect(effect) && self.effect(effect).callback is Some
    }

    /// The links of an effect; none if it is stale.
    pub open spec fn links(self, effect: EffectId) -> Seq<model::Link> {
        if self.has_effect(effect) {
            self.effect(effect).signals
        } else {
            Seq::empty()
        }
    }

    /// The state with other links of `effect`, if it is live.
    pub open spec fn put_links(self, effect: EffectId, links: Seq<model::Link>) -> State {
        if self.has_effect(effect) {
            self.put_effect(effect, EffectModel { signals: links, ..self.effect(effect) })
        } else {
            self
        }
    }

    /// The signals an effect reads.
    pub open spec fn sources(self, effect: EffectId) -> Seq<SignalId> {
        model::sources_of(self.links(effect))
    }

    /// The signals an effect writes.
    pub open spec fn outputs(self, effect: EffectId) -> Seq<SignalId> {
        model::outputs_of(self.links(effect))
    }

    /// The effect is live and reads the signal.
    pub open spec fn has_source(self, effect: EffectId, signal: SignalId) -> bool {
        self.has_effect(effect) && model::reads(self.effect(effect).signals, signal)
    }

    /// `effect` reads `signal`, if it is live.
    pub open spec fn add_source(self, effect: EffectId, signal: SignalId) -> State {
        self.put_links(effect, model::link_source(self.links(effect), signal))
    }

    /// `effect` does not read `signal`.
    pub open spec fn remove_source(self, effect: EffectId, signal: SignalId) -> State {
        self.put_links(effect, model::unlink_source(self.links(effect), signal))
    }

    /// `effect` reads nothing.
    pub open spec fn clear_sources(self, effect: EffectId) -> State {
        self.put_links(effect, model::unlink_sources(self.links(effect)))
    }

    /// `effect` writes `signal`, if it is live: from the UI, or not.
    pub open spec fn add_output(self, effect: EffectId, signal: SignalId, from_ui: bool) -> State {
        self.put_links(effect, model::link_output(self.links(effect), signal, from_ui))
    }

    /// The effects that read something `effect` writes: of each output in turn,
    /// its subscribers.
    pub open spec fn successors(self, effect: EffectId) -> Seq<EffectId> {
        self.outputs(effect).flat_map(|o: SignalId| self.subscribers(o))
    }

    /// `effect` is subscribed to none of its sources.
    pub open spec fn unsubscribe(self, effect: EffectId) -> State {
        State {
            signals: unsubscribed(self.signals, self.signal_gens, self.sources(effect), effect),
            ..self
        }
    }

    /// `effect` is registered as a writer of none of its outputs.
    pub open spec fn unregister(self, effect: EffectId) -> State {
        State { writers: unwritten(self.writers, self.outputs(effect), effect), ..self }
    }

    /// `effect` has forgotten its last run: it reads and writes nothing, and no signal
    /// says otherwise. A computed value keeps its signal.
    pub open spec fn forget_run(self, effect: EffectId) -> State {
        let apart = self.unsubscribe(effect);
        State {
            writers: unwritten(self.writers, model::written_of(self.links(effect)), effect),
            ..apart
        }.put_links(effect, model::own_links(self.links(effect)))
    }

    /// The callback of `effect`, if it is live, is `callback`.
    pub open spec fn put_callback(
        self,
        effect: EffectId,
        callback: Option<EffectFn>,
    ) -> State {
        if self.has_effect(effect) {
            self.put_effect(effect, EffectModel { callback, ..self.effect(effect) })
        } else {
            self
        }
    }

    // -- Pending set and maps -----------------------------------------------

    /// `effect` is pending.
    pub open spec fn pending_insert(self, effect: EffectId) -> State {
        State { pending: model::insert_once(self.pending, effect), ..self }
    }

    /// `effect` is not pending.
    pub open spec fn pending_remove(self, effect: EffectId) -> State {
        State { pending: model::swap_removed(self.pending, effect), ..self }
    }

    /// Nothing is pending.
    pub open spec fn pending_clear(self) -> State {
        State { pending: Seq::empty(), ..self }
    }

    /// The pending effects that must run, and those that can be deferred.
    pub open spec fn pending_split(self) -> (Seq<EffectId>, Seq<EffectId>) {
        (
            self.pending.filter(|e: EffectId| !self.is_skippable(e)),
            self.pending.filter(|e: EffectId| self.is_skippable(e)),
        )
    }

    /// `parent` is the parent of `effect`.
    pub open spec fn set_parent(self, effect: EffectId, parent: EffectId) -> State {
        State { parents: self.parents.insert(effect, parent), ..self }
    }

    /// The children of an effect; none if nothing is registered.
    pub open spec fn children_of(self, effect: EffectId) -> Seq<EffectId> {
        model::list_at(self.children, effect)
    }

    /// `child` is the last child of `effect`.
    pub open spec fn add_child(self, effect: EffectId, child: EffectId) -> State {
        State {
            children: self.children.insert(effect, self.children_of(effect).push(child)),
            ..self
        }
    }

    /// `child` is no child of `effect`.
    pub open spec fn remove_child(self, effect: EffectId, child: EffectId) -> State {
        let rest = model::without(self.children_of(effect), child);
        if rest.len() == 0 {
            self.clear_children(effect)
        } else {
            State { children: self.children.insert(effect, rest), ..self }
        }
    }

    /// `effect` has no children.
    pub open spec fn clear_children(self, effect: EffectId) -> State {
        State { children: self.children.remove(effect), ..self }
    }

    /// The effects that write a signal; none if nothing is registered.
    pub open spec fn writers_of(self, signal: SignalId) -> Seq<EffectId> {
        model::list_at(self.writers, signal)
    }

    /// `effect` is a writer of `signal`.
    pub open spec fn add_writer(self, signal: SignalId, effect: EffectId) -> State {
        State {
            writers: self.writers.insert(
                signal,
                model::insert_once(self.writers_of(signal), effect),
            ),
            ..self
        }
    }

    /// `effect` is no writer of `signal`.
    pub open spec fn remove_writer(self, signal: SignalId, effect: EffectId) -> State {
        let rest = model::without(self.writers_of(signal), effect);
        State {
            writers: if rest.len() == 0 {
                self.writers.remove(signal)
            } else {
                self.writers.insert(signal, rest)
            },
            ..self
        }
    }

    // -- The running thread ---------------------------------------------------

    /// The current effect is `to`.
    pub open spec fn with_current(self, to: Option<EffectId>) -> State {
        State { local: LocalModel { current: to, ..self.local }, ..self }
    }

    /// Effect processing is scheduled, or is not.
    pub open spec fn with_scheduled(self, to: bool) -> State {
        State { local: LocalModel { scheduled: to, ..self.local }, ..self }
    }

    /// `frame` is under way, on top of all others.
    pub open spec fn push_frame(self, frame: FrameModel) -> State {
        State { local: LocalModel { frames: self.local.frames.push(frame), ..self.local }, ..self }
    }

    /// The innermost activity is over.
    pub open spec fn pop_frame(self) -> State {
        State { local: LocalModel { frames: self.local.frames.drop_last(), ..self.local }, ..self }
    }

    /// The last update has run its effect, or has not.
    pub open spec fn with_updated(self, to: bool) -> State {
        State { local: LocalModel { updated: to, ..self.local }, ..self }
    }

    /// `current` and `signal` are reported as a cycle of one read and one write.
    pub open spec fn with_warning(self, effect: EffectId, signal: SignalId) -> State {
        State { local: LocalModel { warning: Some((effect, signal)), ..self.local }, ..self }
    }

    /// The effect loop is to be notified, if there is one.
    pub open spec fn notify_loop(self) -> State {
        State { notice: self.notice || self.attached, ..self }
    }

    /// Effect processing is scheduled, and the effect loop is told.
    pub open spec fn schedule(self) -> State {
        self.with_scheduled(true).notify_loop()
    }
}

} // verus!
