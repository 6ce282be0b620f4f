//! The life of signals, effects, computed values and transactions in the model.
use vstd::prelude::*;

use crate::arena::effect_arena::EffectId;
use crate::arena::signal_arena::SignalId;
use crate::model;
use crate::model::graph;
use crate::model::EffectModel;
use crate::model::FrameModel;
use crate::model::LocalModel;
use crate::model::RunKind;
use crate::model::State;

verus! {

impl State {
    // -- Signals ------------------------------------------------------------------

    /// The effects of `list` do not read `signal`.
    pub open spec fn forget_source(self, list: Seq<EffectId>, signal: SignalId) -> State {
        State {
            effects: Seq::new(
                self.effects.len(),
                |i: int|
                    match self.effects[i] {
                        Some(m) if graph::effect_hit(list, self.effect_gens, i) => Some(
                            EffectModel { signals: model::unlink_source(m.signals, signal), ..m },
                        ),
                        other => other,
                    },
            ),
            ..self
        }
    }

    /// `signal` is gone: no subscriber reads it any more.
    pub open spec fn dispose_signal(self, signal: SignalId) -> State {
        self.forget_source(self.subscribers(signal), signal).remove_signal(signal)
    }

    // -- Effects ------------------------------------------------------------------

    /// `effect` is a child of the current effect, if there is one.
    pub open spec fn adopt(self, effect: EffectId) -> State {
        match self.local.current {
            Some(parent) => self.set_parent(effect, parent).add_child(parent, effect),
            None => self,
        }
    }

    /// An effect has come into being at `key`, under the current one.
    pub open spec fn create(self, key: nat, effect: EffectId, m: EffectModel) -> State {
        self.insert_effect(key, m).adopt(effect)
    }

    /// `effect` is to be run.
    pub open spec fn start(self, effect: EffectId, kind: RunKind) -> State {
        self.push_frame(FrameModel::Start { effect, kind })
    }

    /// The owner of `effect` gives it up. A child stays in the arena, for its parent
    /// to destroy, but reacts to nothing; any other effect goes with all under it.
    pub open spec fn dispose_effect(self, effect: EffectId) -> State {
        let idle = self.pending_remove(effect);
        if !self.has_effect(effect) {
            idle
        } else {
            let apart = idle.unsubscribe(effect).unregister(effect);
            if self.parents.contains_key(effect) {
                apart
            } else {
                apart.destroy_children(effect).remove_effect(effect)
            }
        }
    }

    // -- Computed values ------------------------------------------------------------

    /// The value behind `signal`, computed by `effect`, is read: it is recomputed if
    /// it is stale and the current effect does not depend on it yet, and then the
    /// current effect depends on it.
    pub open spec fn refresh(self, signal: SignalId, effect: EffectId) -> State {
        let followed = self.push_frame(
            FrameModel::Track { signal, effect: self.local.current },
        );
        if self.recomputes(signal, effect) {
            followed.update(effect, false)
        } else {
            followed
        }
    }

    /// The value is stale, and not yet a source of the current effect.
    pub open spec fn recomputes(self, signal: SignalId, effect: EffectId) -> bool {
        self.state_of(effect) !is Clean && match self.local.current {
            Some(current) => !self.has_source(current, signal),
            None => true,
        }
    }

    // -- Transactions ---------------------------------------------------------------

    /// A transaction is entered; UI updates stay suppressed if they are.
    pub open spec fn enter(self, suppress: bool) -> State {
        State {
            active: if self.local.depth == 0 {
                self.active + 1
            } else {
                self.active
            },
            local: LocalModel {
                depth: self.local.depth + 1,
                suppress: self.local.suppress || suppress,
                ..self.local
            },
            ..self
        }
    }

    /// One transaction less is open.
    pub open spec fn leave(self, suppress: bool) -> State {
        State {
            local: LocalModel {
                depth: if self.local.depth == 0 {
                    0
                } else {
                    (self.local.depth - 1) as nat
                },
                suppress,
                ..self.local
            },
            ..self
        }
    }

    /// One thread less is in a transaction.
    pub open spec fn release(self) -> State {
        State {
            active: if self.active == 0 {
                0
            } else {
                (self.active - 1) as nat
            },
            ..self
        }
    }

    /// A transaction ends; `suppress` is what was before it. With the outermost one
    /// the pending effects are processed, and processing is scheduled.
    pub open spec fn exit(self, suppress: bool) -> State {
        let left = self.leave(suppress);
        if left.local.depth == 0 {
            left.release().with_scheduled(false).push_frame(FrameModel::Schedule).process_all()
        } else {
            left
        }
    }
}

} // verus!
