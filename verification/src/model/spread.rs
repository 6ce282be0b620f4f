//! How a change spreads in the model: children are destroyed, direct
//! subscribers become Dirty, and what depends on them becomes Check.
use vstd::prelude::*;

use crate::arena::effect_arena::EffectId;
use crate::arena::effect_arena::ReactiveState;
use crate::arena::signal_arena::SignalId;
use crate::model;
use crate::model::EffectModel;
use crate::model::State;

verus! {

// ---------------------------------------------------------------------------
// The effect hierarchy
// ---------------------------------------------------------------------------

/// Every set of effects is finite.
pub proof fn lemma_effects_finite(s: Set<EffectId>)
    ensures
        s.finite(),
{
    let width: int = 0x1_0000_0000;
    let top: int = 0x1_0000_0000_0000_0000_0000_0000;
    let ints = vstd::set_lib::set_int_range(0, top);
    vstd::set_lib::lemma_int_range(0, top);
    let name = |n: int| EffectId((n % width) as u32, (n / width) as u64);
    let all = ints.map(name);
    assert forall|e: EffectId| s.contains(e) implies all.contains(e) by {
        let n: int = e.1 * width + e.0;
        assert(0 <= n < top);
        assert(n % width == e.0 && n / width == e.1);
        assert(ints.contains(n) && name(n) == e);
    }
    ints.lemma_map_finite(name);
    vstd::set_lib::lemma_set_subset_finite(all, s);
}

/// What is left of the map of children when the tree under `effect` has been
/// taken out of it, and that tree without its root, children before parents.
pub open spec fn take_tree(c: Map<EffectId, Seq<EffectId>>, effect: EffectId) -> (
    Map<EffectId, Seq<EffectId>>,
    Seq<EffectId>,
)
    decreases c.dom().len(), 0nat,
{
    proof {
        lemma_effects_finite(c.dom());
    }
    if c.contains_key(effect) {
        take_trees(c.remove(effect), c[effect])
    } else {
        (c, Seq::empty())
    }
}

/// As `take_tree`, for each effect of `list` in turn, roots included.
pub open spec fn take_trees(c: Map<EffectId, Seq<EffectId>>, list: Seq<EffectId>) -> (
    Map<EffectId, Seq<EffectId>>,
    Seq<EffectId>,
)
    decreases c.dom().len(), list.len(),
{
    if list.len() == 0 {
        (c, Seq::empty())
    } else {
        let (c1, under) = take_tree(c, list[0]);
        if c1.dom().len() <= c.dom().len() {
            let (c2, rest) = take_trees(c1, list.drop_first());
            (c2, under.push(list[0]) + rest)
        } else {
            (c1, under)
        }
    }
}

/// The measure by which marking ends: how many effects are Clean.
pub open spec fn clean_count(effects: Seq<Option<EffectModel>>) -> nat
    decreases effects.len(),
{
    if effects.len() == 0 {
        0
    } else {
        clean_count(effects.drop_last()) + match effects.last() {
            Some(m) if m.state is Clean => 1nat,
            _ => 0nat,
        }
    }
}

/// A slot that was Clean and is not any more lowers the count by one.
pub proof fn lemma_clean_count_update(
    effects: Seq<Option<EffectModel>>,
    i: int,
    to: Option<EffectModel>,
)
    requires
        0 <= i < effects.len(),
    ensures
        clean_count(effects.update(i, to)) + (if effects[i] is Some && effects[i]->0.state is Clean {
            1nat
        } else {
            0nat
        }) == clean_count(effects) + (if to is Some && to->0.state is Clean {
            1nat
        } else {
            0nat
        }),
    decreases effects.len(),
{
    let last = effects.len() - 1;
    let changed = effects.update(i, to);
    if i == last {
        assert(changed.drop_last() =~= effects.drop_last());
    } else {
        lemma_clean_count_update(effects.drop_last(), i, to);
        assert(changed.drop_last() =~= effects.drop_last().update(i, to));
    }
}

impl State {
    /// One child is destroyed: it is not pending, no signal knows it as a reader or a
    /// writer, and the arena holds it no more.
    pub open spec fn destroy_one(self, effect: EffectId) -> State {
        self.pending_remove(effect).unsubscribe(effect).unregister(effect).remove_effect(effect)
    }

    /// The effects of `list` are destroyed, one by one.
    pub open spec fn destroy_list(self, list: Seq<EffectId>) -> State
        decreases list.len(),
    {
        if list.len() == 0 {
            self
        } else {
            self.destroy_one(list[0]).destroy_list(list.drop_first())
        }
    }

    /// The effects under `effect`, children before parents.
    pub open spec fn descendants(self, effect: EffectId) -> Seq<EffectId> {
        take_tree(self.children, effect).1
    }

    /// All effects under `effect` are destroyed.
    pub open spec fn destroy_children(self, effect: EffectId) -> State {
        State { children: take_tree(self.children, effect).0, ..self }.destroy_list(
            self.descendants(effect),
        )
    }

    // -- Dirty ----------------------------------------------------------------

    /// `effect` is live and not Dirty.
    pub open spec fn can_mark(self, effect: EffectId) -> bool {
        self.has_effect(effect) && self.effect(effect).state !is Dirty
    }

    /// `effect` is Dirty, without children and pending, if it was not Dirty.
    pub open spec fn mark_pending(self, effect: EffectId) -> State {
        if self.can_mark(effect) {
            self.set_state(effect, ReactiveState::Dirty).destroy_children(effect).pending_insert(
                effect,
            )
        } else {
            self
        }
    }

    /// `effect` is Dirty, without children and pending, if it was not Dirty.
    pub open spec fn mark_dirty(self, effect: EffectId) -> State {
        if self.state_of(effect) is Dirty {
            self
        } else {
            self.set_state(effect, ReactiveState::Dirty).destroy_children(effect).pending_insert(
                effect,
            )
        }
    }

    // -- Check ----------------------------------------------------------------

    /// `effect` is Check and pending.
    pub open spec fn mark_check_one(self, effect: EffectId) -> State {
        self.set_state(effect, ReactiveState::Check).pending_insert(effect)
    }

    /// `effect`, if Clean, is Check and pending, and what depends on it is
    /// marked in the same way.
    pub open spec fn check_effect(self, effect: EffectId) -> State
        decreases clean_count(self.effects), 0nat,
    {
        if self.state_of(effect) is Clean {
            if self.has_effect(effect) {
                proof {
                    lemma_clean_count_update(
                        self.effects,
                        effect.0 as int,
                        Some(EffectModel { state: ReactiveState::Check, ..self.effect(effect) }),
                    );
                }
                self.mark_check_one(effect).check_list(self.successors(effect))
            } else {
                self.mark_check_one(effect)
            }
        } else {
            self
        }
    }

    /// As `check_effect`, for each effect of `list` in turn.
    pub open spec fn check_list(self, list: Seq<EffectId>) -> State
        decreases clean_count(self.effects), list.len(),
    {
        if list.len() == 0 {
            self
        } else {
            let next = self.check_effect(list[0]);
            if clean_count(next.effects) <= clean_count(self.effects) {
                next.check_list(list.drop_first())
            } else {
                next
            }
        }
    }

    // -- Notification -----------------------------------------------------------

    /// A subscriber of a changed signal is Dirty, and what depends on it is Check.
    pub open spec fn notify_one(self, effect: EffectId) -> State {
        let marked = self.mark_pending(effect);
        marked.check_list(marked.successors(effect))
    }

    /// As `notify_one`, for each effect of `list` in turn; if the change comes
    /// from the UI, those that are not told of such changes are left out.
    pub open spec fn notify_list(self, list: Seq<EffectId>, from_ui: bool) -> State
        decreases list.len(),
    {
        if list.len() == 0 {
            self
        } else if from_ui && self.is_ui_only(list[0]) {
            self.notify_list(list.drop_first(), from_ui)
        } else {
            self.notify_one(list[0]).notify_list(list.drop_first(), from_ui)
        }
    }

    /// The subscribers of `signal` are told that it has changed.
    pub open spec fn notify_subscribers(self, signal: SignalId, from_ui: bool) -> State {
        self.notify_list(self.subscribers(signal), from_ui)
    }

    /// The test for an effect other than `effect` that waits to know whether something it
    /// reads has changed, and is told of changes, from the UI or not.
    pub open spec fn hears(self, effect: EffectId, from_ui: bool) -> spec_fn(EffectId) -> bool {
        |x: EffectId|
            x != effect && self.state_of(x) is Check && !(from_ui && self.is_ui_only(x))
    }

    /// Those who are told when a run of `effect` has written over the link `l`: the
    /// readers of the signal that are in state Check, but not `effect` itself, nor those
    /// that are not told of changes from the UI if the write came from there. Readers of a
    /// computed value are told by the value.
    pub open spec fn told_over(self, effect: EffectId, l: model::Link) -> Seq<EffectId> {
        if l.1.is_output && !l.1.is_own {
            self.subscribers(l.0).filter(self.hears(effect, l.1.from_ui))
        } else {
            Seq::empty()
        }
    }

    /// Those who are told when a run of `effect` is over.
    pub open spec fn told_after(self, effect: EffectId) -> Seq<EffectId> {
        self.links(effect).flat_map(|l: model::Link| self.told_over(effect, l))
    }

    /// Those who read what a run of `effect` has written are told of it.
    pub open spec fn mark_outputs(self, effect: EffectId) -> State {
        self.notify_list(self.told_after(effect), false)
    }

    /// The current effect, if any, is registered as a writer of `signal`; if it
    /// also reads `signal`, that read is forgotten and reported.
    pub open spec fn register_writer(self, signal: SignalId, from_ui: bool) -> State {
        match self.local.current {
            Some(effect) => {
                let broken = if self.has_source(effect, signal) {
                    self.with_warning(effect, signal).remove_subscriber(
                        signal,
                        effect,
                    ).remove_source(effect, signal)
                } else {
                    self
                };
                broken.add_output(effect, signal, from_ui).add_writer(signal, effect)
            },
            None => self,
        }
    }

    /// Processing is scheduled, unless a transaction is open or an effect runs.
    pub open spec fn schedule_if_idle(self) -> State {
        if self.local.depth == 0 && self.local.current is None {
            self.schedule()
        } else {
            self
        }
    }

    /// A change counts as one from the UI if it comes from there, or if UI updates are
    /// suppressed.
    pub open spec fn counts_as_ui(self, from_ui: bool) -> bool {
        from_ui || self.local.suppress
    }

    /// `signal` has changed.
    pub open spec fn emit(self, signal: SignalId, from_ui: bool) -> State {
        let ui = self.counts_as_ui(from_ui);
        self.register_writer(signal, ui).notify_subscribers(signal, ui).schedule_if_idle()
    }

    /// The effect `effect`, if any, reads `signal` from now on.
    pub open spec fn track(self, signal: SignalId, effect: Option<EffectId>) -> State {
        match effect {
            Some(e) => self.add_source(e, signal).add_subscriber(signal, e),
            None => self,
        }
    }
}

} // verus!
