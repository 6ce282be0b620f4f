//! The activities of the runtime, one step at a time.
//!
//! A callback runs in the hands of the host, which takes steps until one of them
//! asks for something:
//!
//! ```ignore
//! loop {
//!     match rt.step() {
//!         Action::Continue => {},
//!         Action::Run(_, mut f) => {
//!             f.body.call();
//!             rt.finish_callback(f);
//!         },
//!         Action::Clock => rt.clock(nanoseconds_since_the_flush_began),
//!         Action::Done => break,
//!     }
//! }
//! ```
//!
//! A callback that asks for an activity of its own takes steps in the same way:
//! they end when that activity does.
use vstd::prelude::*;

use crate::arena::effect_arena;
use crate::arena::effect_arena::EffectFn;
use crate::arena::effect_arena::EffectId;
use crate::arena::effect_arena::ReactiveState;
use crate::arena::signal_arena;
use crate::arena::signal_arena::SignalId;
use crate::effect;
use crate::lists;
use crate::model::facts;
use crate::model::machine;
use crate::model::RunKind;
use crate::runtime::Action;
use crate::runtime::Frame;
use crate::runtime::Runtime;

verus! {

impl Runtime {
    /// Begin an activity inside those that are under way.
    pub(crate) fn push_frame(&mut self, frame: Frame)
        ensures
            final(self)@ == old(self)@.push_frame(frame@),
    {
        self.local.frames.push(frame);
        proof {
            assert(self@.local.frames =~= old(self)@.local.frames.push(frame@));
        }
    }

    /// Take the innermost activity off the stack.
    fn pop_frame(&mut self) -> (r: Option<Frame>)
        ensures
            match r {
                Some(frame) => {
                    &&& old(self)@.local.frames.len() > 0
                    &&& frame@ == old(self)@.local.frames.last()
                    &&& final(self)@ == old(self)@.pop_frame()
                },
                None => old(self)@.local.frames.len() == 0 && final(self)@ == old(self)@,
            },
    {
        let r = self.local.frames.pop();
        proof {
            if r is Some {
                assert(self@.local.frames =~= old(self)@.local.frames.drop_last());
            }
        }
        r
    }

    /// Those who are told when a run of an effect is over.
    fn told_after(&self, effect_id: EffectId) -> (r: Vec<EffectId>)
        ensures
            r@ == self@.told_after(effect_id),
    {
        let mut out: Vec<EffectId> = Vec::new();
        let meta = match effect_id.get(self) {
            Some(meta) => meta,
            None => {
                proof {
                    facts::lemma_told_none(self@, effect_id);
                }
                return out;
            },
        };
        let links = &meta.signals;
        let mut i: usize = 0;
        proof {
            assert(links@.take(0) =~= Seq::empty());
            facts::lemma_told_none(self@, effect_id);
        }
        while i < links.len()
            invariant
                i <= links.len(),
                out@ == facts::told_over_all(self@, effect_id, links@.take(i as int)),
            decreases links.len() - i,
        {
            let l = links[i];
            let ghost so_far = out@;
            proof {
                assert(links@.take(i + 1) =~= links@.take(i as int).push(l));
                facts::lemma_told_push(self@, effect_id, links@.take(i as int), l);
            }
            if l.1.is_output && !l.1.is_own {
                let subs = l.0.subscribers(self);
                let ghost keep = self@.hears(effect_id, l.1.from_ui);
                proof {
                    reveal(Seq::filter);
                    assert(so_far + subs@.take(0).filter(keep) =~= so_far);
                }
                let mut j: usize = 0;
                while j < subs.len()
                    invariant
                        j <= subs.len(),
                        keep == self@.hears(effect_id, l.1.from_ui),
                        out@ == so_far + subs@.take(j as int).filter(keep),
                    decreases subs.len() - j,
                {
                    let x = subs[j];
                    proof {
                        assert(subs@.take(j + 1) =~= subs@.take(j as int).push(x));
                        lists::lemma_filter_push(subs@.take(j as int), x, keep);
                    }
                    if x != effect_id && x.state(self) == ReactiveState::Check && !(l.1.from_ui
                        && x.is_ui_updates_only(self)) {
                        out.push(x);
                    }
                    proof {
                        assert(out@ =~= so_far + subs@.take(j + 1).filter(keep));
                    }
                    j = j + 1;
                }
                proof {
                    assert(subs@.take(j as int) =~= subs@);
                }
            } else {
                proof {
                    assert(so_far + Seq::empty() =~= so_far);
                }
            }
            i = i + 1;
        }
        proof {
            assert(links@.take(i as int) =~= links@);
        }
        out
    }

    /// Tell those who read what a run of an effect has written.
    fn mark_outputs(&mut self, effect_id: EffectId)
        ensures
            final(self)@ == old(self)@.mark_outputs(effect_id),
    {
        let told = self.told_after(effect_id);
        signal_arena::notify_effects(self, &told, false);
    }

    /// What precedes the callback of an effect.
    fn prepare_run(&mut self, effect_id: EffectId, kind: RunKind)
        ensures
            final(self)@ == old(self)@.prepare_run(effect_id, kind),
    {
        match kind {
            RunKind::Bare => {},
            RunKind::Initial => {
                effect_arena::set_current_effect(self, Some(effect_id));
            },
            RunKind::Now => {
                effect_id.unsubscribe(self);
                effect_id.clear_sources(self);
                effect_arena::set_current_effect(self, Some(effect_id));
            },
            RunKind::Single | RunKind::SingleThenMark => {
                if effect_id.needs_work(self) {
                    effect_id.set_state(self, ReactiveState::Clean);
                    if effect_id.has_callback(self) {
                        effect_id.forget_run(self);
                        effect_arena::set_current_effect(self, Some(effect_id));
                    }
                } else {
                    proof {
                        facts::lemma_set_same_state(self@, effect_id);
                    }
                }
            },
        }
    }

    /// What follows the callback of an effect.
    fn conclude_run(&mut self, effect_id: EffectId, kind: RunKind)
        ensures
            final(self)@ == old(self)@.conclude_run(effect_id, kind),
    {
        match kind {
            RunKind::Bare | RunKind::Initial | RunKind::Single => {},
            RunKind::Now => {
                effect_id.set_state(self, ReactiveState::Clean);
            },
            RunKind::SingleThenMark => {
                self.mark_outputs(effect_id);
                self.local.updated = true;
            },
        }
    }

    /// What follows where no callback is called.
    fn skip_run(&mut self, effect_id: EffectId, kind: RunKind)
        ensures
            final(self)@ == old(self)@.skip_run(effect_id, kind),
    {
        match kind {
            RunKind::Bare | RunKind::Initial | RunKind::Single => {},
            RunKind::Now => {
                effect_id.set_state(self, ReactiveState::Clean);
            },
            RunKind::SingleThenMark => {
                self.local.updated = false;
            },
        }
    }

    /// Run an effect: what precedes its callback is done, and the callback is handed
    /// out, if there is one to call.
    fn begin_run(&mut self, effect_id: EffectId, kind: RunKind) -> (r: Action)
        ensures
            (final(self)@, r) == old(self)@.begin_run(effect_id, kind),
    {
        let previous = effect_arena::current_effect(self);
        let wanted = match kind {
            RunKind::Single | RunKind::SingleThenMark => effect_id.needs_work(self)
                && effect_id.has_callback(self),
            _ => true,
        };
        self.prepare_run(effect_id, kind);
        if wanted {
            if let Some(callback) = effect_id.take_callback(self) {
                self.push_frame(Frame::Running { effect: effect_id, previous, kind });
                return Action::Run(effect_id, callback);
            }
            proof {
                facts::lemma_put_same_callback(old(self)@.prepare_run(effect_id, kind), effect_id);
            }
        }
        effect_arena::set_current_effect(self, previous);
        self.skip_run(effect_id, kind);
        Action::Continue
    }

    /// The callback that was handed out last has returned. It goes back to the arena,
    /// if its effect is still there.
    pub fn finish_callback(&mut self, callback: EffectFn)
        ensures
            final(self)@ == old(self)@.finish_callback(callback),
    {
        match self.pop_frame() {
            Some(Frame::Running { effect, previous, kind }) => {
                effect.put_callback(self, callback);
                effect_arena::set_current_effect(self, previous);
                self.conclude_run(effect, kind);
            },
            Some(other) => {
                self.push_frame(other);
                proof {
                    facts::lemma_pop_push(old(self)@);
                }
            },
            None => {},
        }
    }

    /// The callback that was handed out last has failed. It goes back to the arena, if
    /// its effect is still there, and the current effect is the one from before it.
    pub fn abort_callback(&mut self, callback: EffectFn)
        ensures
            final(self)@ == old(self)@.abort_callback(callback),
    {
        match self.pop_frame() {
            Some(Frame::Running { effect, previous, kind }) => {
                effect.put_callback(self, callback);
                effect_arena::set_current_effect(self, previous);
            },
            Some(other) => {
                self.push_frame(other);
                proof {
                    facts::lemma_pop_push(old(self)@);
                }
            },
            None => {},
        }
    }

    /// How many activities are under way.
    pub fn activities(&self) -> (r: usize)
        ensures
            r == self@.local.frames.len(),
    {
        self.local.frames.len()
    }

    /// Give up all activities but the outermost `depth`.
    pub fn abandon(&mut self, depth: usize)
        ensures
            final(self)@ == old(self)@.abandon(depth as nat),
    {
        if depth < self.local.frames.len() {
            self.local.frames.truncate(depth);
            proof {
                assert(self@.local.frames =~= old(self)@.local.frames.take(depth as int));
            }
        }
    }

    /// Begin to update the writers of a signal.
    pub(crate) fn pull_signal(&mut self, signal_id: SignalId, skip: bool)
        ensures
            final(self)@ == old(self)@.pull(signal_id, skip),
    {
        let writers = signal_arena::writers_of(self, signal_id);
        let current = effect_arena::current_effect(self);
        self.push_frame(Frame::Pull { writers, next: 0, current, skip });
    }

    /// Begin to update an effect, unless it is Clean.
    fn update_if_stale(&mut self, effect_id: EffectId, skip: bool)
        ensures
            final(self)@ == old(self)@.update_if_stale(effect_id, skip),
    {
        if effect_id.needs_work(self) {
            self.push_frame(Frame::Update { effect: effect_id, skip });
        }
    }

    /// One step of the innermost activity.
    pub fn step(&mut self) -> (r: Action)
        ensures
            (final(self)@, r) == old(self)@.step(),
    {
        let frame = match self.pop_frame() {
            Some(frame) => frame,
            None => {
                return Action::Done;
            },
        };
        let ghost s = self@;
        match frame {
            Frame::Update { effect, skip } => {
                match effect.state(self) {
                    ReactiveState::Clean => {
                        self.local.updated = false;
                        Action::Continue
                    },
                    ReactiveState::Check => {
                        let (sources, _) = effect.signals(self);
                        self.push_frame(Frame::Verify { effect, sources, next: 0, skip });
                        Action::Continue
                    },
                    ReactiveState::Dirty => self.begin_run(effect, RunKind::SingleThenMark),
                }
            },
            Frame::Start { effect, kind } => self.begin_run(effect, kind),
            Frame::Running { effect, previous, kind } => {
                self.push_frame(Frame::Running { effect, previous, kind });
                proof {
                    facts::lemma_pop_push(old(self)@);
                }
                Action::Done
            },
            Frame::Verify { effect, sources, next, skip } => {
                let state = effect.state(self);
                if next < sources.len() && state != ReactiveState::Dirty {
                    let source = sources[next];
                    self.push_frame(Frame::Verify { effect, sources, next: next + 1, skip });
                    self.pull_signal(source, skip);
                    Action::Continue
                } else if state == ReactiveState::Check {
                    effect.set_state(self, ReactiveState::Clean);
                    self.local.updated = false;
                    Action::Continue
                } else {
                    self.begin_run(effect, RunKind::SingleThenMark)
                }
            },
            Frame::Pull { writers, next, current, skip } => {
                if next < writers.len() {
                    let writer = writers[next];
                    let is_current = match current {
                        Some(e) => e == writer,
                        None => false,
                    };
                    let skipped = skip && writer.is_skippable(self);
                    self.push_frame(Frame::Pull { writers, next: next + 1, current, skip });
                    if !is_current && !skipped {
                        self.push_frame(Frame::Update { effect: writer, skip });
                    }
                }
                Action::Continue
            },
            Frame::Track { signal, effect } => {
                if let Some(e) = effect {
                    e.add_source(self, signal);
                    signal.add_subscriber(self, e);
                }
                Action::Continue
            },
            Frame::Flush { ids, next, total } => {
                if next < ids.len() {
                    let effect = ids[next];
                    if effect.needs_work(self) {
                        let total = total.wrapping_add(1);
                        self.push_frame(Frame::Flush { ids, next: next + 1, total });
                        self.push_frame(Frame::Update { effect, skip: false });
                    } else {
                        self.push_frame(Frame::Flush { ids, next: next + 1, total });
                    }
                } else {
                    let more = effect_arena::take_pending_effects(self);
                    if more.len() > 0 {
                        self.push_frame(Frame::Flush { ids: more, next: 0, total });
                    } else {
                        self.local.processed = total;
                    }
                }
                Action::Continue
            },
            Frame::Budget { must_run, skippable, next, limit, over } => {
                match over {
                    Some(over_budget) => {
                        if next < must_run.len() {
                            let effect = must_run[next];
                            self.push_frame(
                                Frame::Budget { must_run, skippable, next: next + 1, limit, over },
                            );
                            self.update_if_stale(effect, over_budget);
                        } else {
                            self.local.budget = Some((must_run, skippable));
                        }
                        Action::Continue
                    },
                    None => {
                        self.push_frame(Frame::Budget { must_run, skippable, next, limit, over });
                        proof {
                            facts::lemma_pop_push(old(self)@);
                        }
                        Action::Clock
                    },
                }
            },
            Frame::Schedule => {
                effect::schedule_effect_processing(self);
                Action::Continue
            },
        }
    }

    /// Say how many nanoseconds have passed since the flush with a budget began. The
    /// next effect that can be skipped is processed if that is within the budget.
    pub fn clock(&mut self, elapsed: u128)
        ensures
            final(self)@ == old(self)@.clock(elapsed),
    {
        match self.pop_frame() {
            Some(Frame::Budget { must_run, skippable, next, limit, over: None }) => {
                if elapsed <= limit && next < skippable.len() {
                    let effect = skippable[next];
                    self.push_frame(
                        Frame::Budget { must_run, skippable, next: next + 1, limit, over: None },
                    );
                    self.update_if_stale(effect, false);
                } else {
                    let mut rest = skippable;
                    let left: Vec<EffectId> = if next < rest.len() {
                        rest.split_off(next)
                    } else {
                        Vec::new()
                    };
                    proof {
                        assert(left@ =~= machine::left_of(skippable@, next as nat));
                    }
                    self.push_frame(
                        Frame::Budget {
                            must_run,
                            skippable: left,
                            next: 0,
                            limit,
                            over: Some(elapsed > limit),
                        },
                    );
                }
            },
            Some(other) => {
                self.push_frame(other);
                proof {
                    facts::lemma_pop_push(old(self)@);
                }
            },
            None => {},
        }
    }
}

} // verus!
