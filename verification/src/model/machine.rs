//! The activities of the model: updates, pulls, runs and flushes, one step at a time.
//!
//! A callback is run by the host, not by the library. So whatever may run one is an
//! activity on a stack: the host takes steps until it is told to run a callback,
//! runs it, hands it back and goes on.
use vstd::prelude::*;

use crate::arena::effect_arena::EffectFn;
use crate::arena::effect_arena::EffectId;
use crate::arena::effect_arena::ReactiveState;
use crate::arena::signal_arena::SignalId;
use crate::model::FrameModel;
use crate::model::LocalModel;
use crate::model::RunKind;
use crate::model::State;
use crate::runtime::Action;

verus! {

/// One more, or 0 after the largest number.
pub open spec fn next_count(n: usize) -> usize {
    if n == usize::MAX {
        0
    } else {
        (n + 1) as usize
    }
}

/// What is left of `list` when the first `n` are gone.
pub open spec fn left_of(list: Seq<EffectId>, n: nat) -> Seq<EffectId> {
    if n < list.len() {
        list.skip(n as int)
    } else {
        Seq::empty()
    }
}

impl State {
    // -- Runs -----------------------------------------------------------------

    /// A run of this kind starts only if the effect needs it.
    pub open spec fn wanted(self, effect: EffectId, kind: RunKind) -> bool {
        match kind {
            RunKind::Single | RunKind::SingleThenMark => self.state_of(effect) !is Clean
                && self.has_callback(effect),
            _ => true,
        }
    }

    /// What precedes the callback.
    pub open spec fn prepare_run(self, effect: EffectId, kind: RunKind) -> State {
        match kind {
            RunKind::Bare => self,
            RunKind::Initial => self.with_current(Some(effect)),
            RunKind::Now => self.unsubscribe(effect).clear_sources(effect).with_current(
                Some(effect),
            ),
            RunKind::Single | RunKind::SingleThenMark => if self.wanted(effect, kind) {
                self.set_state(effect, ReactiveState::Clean).forget_run(effect).with_current(
                    Some(effect),
                )
            } else {
                self.set_state(effect, ReactiveState::Clean)
            },
        }
    }

    /// What follows the callback.
    pub open spec fn conclude_run(self, effect: EffectId, kind: RunKind) -> State {
        match kind {
            RunKind::Bare | RunKind::Initial | RunKind::Single => self,
            RunKind::Now => self.set_state(effect, ReactiveState::Clean),
            RunKind::SingleThenMark => self.mark_outputs(effect).with_updated(true),
        }
    }

    /// What follows where no callback is called.
    pub open spec fn skip_run(self, effect: EffectId, kind: RunKind) -> State {
        match kind {
            RunKind::Bare | RunKind::Initial | RunKind::Single => self,
            RunKind::Now => self.set_state(effect, ReactiveState::Clean),
            RunKind::SingleThenMark => self.with_updated(false),
        }
    }

    /// The callback is about to be called.
    pub open spec fn calls(self, effect: EffectId, kind: RunKind) -> bool {
        self.wanted(effect, kind) && self.has_callback(effect)
    }

    /// An effect is run.
    pub open spec fn begin_run(self, effect: EffectId, kind: RunKind) -> (State, Action) {
        let ready = self.prepare_run(effect, kind);
        if self.calls(effect, kind) {
            (
                ready.put_callback(effect, None).push_frame(
                    FrameModel::Running { effect, previous: self.local.current, kind },
                ),
                Action::Run(effect, self.effect(effect).callback->0),
            )
        } else {
            (
                ready.with_current(self.local.current).skip_run(effect, kind),
                Action::Continue,
            )
        }
    }

    /// The callback that ran last has returned.
    pub open spec fn finish_callback(self, callback: EffectFn) -> State {
        if self.local.frames.len() > 0 {
            match self.local.frames.last() {
                FrameModel::Running { effect, previous, kind } => self.pop_frame().put_callback(
                    effect,
                    Some(callback),
                ).with_current(previous).conclude_run(effect, kind),
                _ => self,
            }
        } else {
            self
        }
    }

    /// The callback that ran last has not returned, and never will: nothing follows it.
    pub open spec fn abort_callback(self, callback: EffectFn) -> State {
        if self.local.frames.len() > 0 {
            match self.local.frames.last() {
                FrameModel::Running { effect, previous, kind } => self.pop_frame().put_callback(
                    effect,
                    Some(callback),
                ).with_current(previous),
                _ => self,
            }
        } else {
            self
        }
    }

    /// All activities but the outermost `depth` are given up.
    pub open spec fn abandon(self, depth: nat) -> State {
        if depth < self.local.frames.len() {
            State {
                local: LocalModel {
                    frames: self.local.frames.take(depth as int),
                    ..self.local
                },
                ..self
            }
        } else {
            self
        }
    }

    // -- What asks for activities -----------------------------------------------

    /// `effect` is to be run if that is necessary.
    pub open spec fn update(self, effect: EffectId, skip: bool) -> State {
        self.push_frame(FrameModel::Update { effect, skip })
    }

    /// The writers of `signal` are to be updated.
    pub open spec fn pull(self, signal: SignalId, skip: bool) -> State {
        self.push_frame(
            FrameModel::Pull {
                writers: self.writers_of(signal),
                next: 0,
                current: self.local.current,
                skip,
            },
        )
    }

    /// `signal` is to be pulled, and the current effect to be subscribed to it.
    pub open spec fn pull_and_track(self, signal: SignalId) -> State {
        self.push_frame(FrameModel::Track { signal, effect: self.local.current }).pull(
            signal,
            false,
        )
    }

    /// All pending effects are to be processed.
    pub open spec fn process_all(self) -> State {
        self.push_frame(FrameModel::Flush { ids: Seq::empty(), next: 0, total: 0 })
    }

    /// What was scheduled is to be processed.
    pub open spec fn flush(self) -> State {
        self.with_scheduled(false).process_all()
    }

    /// The pending effects, and those of the two lists, are to be processed within
    /// `limit` nanoseconds.
    pub open spec fn flush_with_budget(
        self,
        limit: u128,
        must_run: Seq<EffectId>,
        skippable: Seq<EffectId>,
    ) -> State {
        self.with_scheduled(false).pending_clear().push_frame(
            FrameModel::Budget {
                must_run: must_run + self.pending_split().0,
                skippable: skippable + self.pending_split().1,
                next: 0,
                limit,
                over: None,
            },
        )
    }

    // -- Steps --------------------------------------------------------------------

    /// `effect` is to be updated if it is not Clean.
    pub open spec fn update_if_stale(self, effect: EffectId, skip: bool) -> State {
        if self.state_of(effect) is Clean {
            self
        } else {
            self.update(effect, skip)
        }
    }

    /// An update: a Clean effect is left alone, a Dirty one is run, the sources of
    /// one in state Check are looked at first.
    pub open spec fn step_update(self, effect: EffectId, skip: bool) -> (State, Action) {
        match self.state_of(effect) {
            ReactiveState::Clean => (self.with_updated(false), Action::Continue),
            ReactiveState::Check => (
                self.push_frame(
                    FrameModel::Verify { effect, sources: self.sources(effect), next: 0, skip },
                ),
                Action::Continue,
            ),
            ReactiveState::Dirty => self.begin_run(effect, RunKind::SingleThenMark),
        }
    }

    /// The next source of an effect in state Check is pulled. When all have been, or
    /// the effect is Dirty, it is decided: Clean if it is still Check, else it runs.
    pub open spec fn step_verify(
        self,
        effect: EffectId,
        sources: Seq<SignalId>,
        next: nat,
        skip: bool,
    ) -> (State, Action) {
        if next < sources.len() && self.state_of(effect) !is Dirty {
            (
                self.push_frame(
                    FrameModel::Verify { effect, sources, next: next + 1, skip },
                ).pull(sources[next as int], skip),
                Action::Continue,
            )
        } else if self.state_of(effect) is Check {
            (
                self.set_state(effect, ReactiveState::Clean).with_updated(false),
                Action::Continue,
            )
        } else {
            self.begin_run(effect, RunKind::SingleThenMark)
        }
    }

    /// The next writer is updated, unless it is the current effect or to be skipped.
    pub open spec fn step_pull(
        self,
        writers: Seq<EffectId>,
        next: nat,
        current: Option<EffectId>,
        skip: bool,
    ) -> State {
        if next < writers.len() {
            let rest = self.push_frame(
                FrameModel::Pull { writers, next: next + 1, current, skip },
            );
            let writer = writers[next as int];
            if current == Some(writer) || (skip && self.is_skippable(writer)) {
                rest
            } else {
                rest.update(writer, skip)
            }
        } else {
            self
        }
    }

    /// The next pending effect is processed. When none is left in `ids`, the pending
    /// set is looked at again, until it is empty.
    pub open spec fn step_flush(self, ids: Seq<EffectId>, next: nat, total: usize) -> State {
        if next < ids.len() {
            let effect = ids[next as int];
            if self.state_of(effect) is Clean {
                self.push_frame(FrameModel::Flush { ids, next: next + 1, total })
            } else {
                self.push_frame(
                    FrameModel::Flush { ids, next: next + 1, total: next_count(total) },
                ).update(effect, false)
            }
        } else if self.pending.len() > 0 {
            self.pending_clear().push_frame(
                FrameModel::Flush { ids: self.pending, next: 0, total },
            )
        } else {
            State { local: LocalModel { processed: total, ..self.local }, ..self }
        }
    }

    /// The next effect that must run is processed; then the two lists are the result.
    pub open spec fn step_must_run(
        self,
        must_run: Seq<EffectId>,
        skippable: Seq<EffectId>,
        next: nat,
        limit: u128,
        over: bool,
    ) -> State {
        if next < must_run.len() {
            self.push_frame(
                FrameModel::Budget {
                    must_run,
                    skippable,
                    next: next + 1,
                    limit,
                    over: Some(over),
                },
            ).update_if_stale(must_run[next as int], over)
        } else {
            State {
                local: LocalModel { budget: Some((must_run, skippable)), ..self.local },
                ..self
            }
        }
    }

    /// The next effect that can be skipped is processed, if the time allows it.
    pub open spec fn step_skippable(
        self,
        must_run: Seq<EffectId>,
        skippable: Seq<EffectId>,
        next: nat,
        limit: u128,
        elapsed: u128,
    ) -> State {
        if elapsed <= limit && next < skippable.len() {
            self.push_frame(
                FrameModel::Budget { must_run, skippable, next: next + 1, limit, over: None },
            ).update_if_stale(skippable[next as int], false)
        } else {
            self.push_frame(
                FrameModel::Budget {
                    must_run,
                    skippable: left_of(skippable, next),
                    next: 0,
                    limit,
                    over: Some(elapsed > limit),
                },
            )
        }
    }

    /// One step of the innermost activity.
    pub open spec fn step(self) -> (State, Action) {
        if self.local.frames.len() == 0 {
            (self, Action::Done)
        } else {
            let s = self.pop_frame();
            match self.local.frames.last() {
                FrameModel::Update { effect, skip } => s.step_update(effect, skip),
                FrameModel::Start { effect, kind } => s.begin_run(effect, kind),
                FrameModel::Running { .. } => (self, Action::Done),
                FrameModel::Verify { effect, sources, next, skip } => s.step_verify(
                    effect,
                    sources,
                    next,
                    skip,
                ),
                FrameModel::Pull { writers, next, current, skip } => (
                    s.step_pull(writers, next, current, skip),
                    Action::Continue,
                ),
                FrameModel::Track { signal, effect } => (
                    s.track(signal, effect),
                    Action::Continue,
                ),
                FrameModel::Flush { ids, next, total } => (
                    s.step_flush(ids, next, total),
                    Action::Continue,
                ),
                FrameModel::Budget { must_run, skippable, next, limit, over: Some(over) } => (
                    s.step_must_run(must_run, skippable, next, limit, over),
                    Action::Continue,
                ),
                FrameModel::Budget { over: None, .. } => (self, Action::Clock),
                FrameModel::Schedule => (s.schedule(), Action::Continue),
            }
        }
    }

    /// `elapsed` nanoseconds have passed since the flush with a budget began.
    pub open spec fn clock(self, elapsed: u128) -> State {
        if self.local.frames.len() > 0 {
            match self.local.frames.last() {
                FrameModel::Budget { must_run, skippable, next, limit, over: None } =>
                self.pop_frame().step_skippable(must_run, skippable, next, limit, elapsed),
                _ => self,
            }
        } else {
            self
        }
    }
}

} // verus!
