//! The effect loop and the background worker: when to wait, when to process, what
//! to defer.
//!
//! The threads themselves, their channel and their condition variables belong to
//! the host. It asks the functions of this module what to do next.
use vstd::prelude::*;

use indexmap::IndexSet;

use crate::arena::effect_arena::EffectId;
use crate::effect;
use crate::hash::FastHashBuilder;
use crate::model;
use crate::model::facts;
use crate::model::LocalModel;
use crate::model::State;
use crate::runtime;
use crate::runtime::Runtime;
use crate::store;

verus! {

// ---------------------------------------------------------------------------
// Notification
// ---------------------------------------------------------------------------

/// Notify the effect loop that effects need processing, if there is a loop.
pub fn notify_effect_loop(rt: &mut Runtime)
    ensures
        final(rt)@ == old(rt)@.notify_loop(),
{
    if rt.attached {
        rt.notice = true;
    }
}

impl Runtime {
    /// From now on there is an effect loop to notify.
    pub fn attach_effect_loop(&mut self)
        ensures
            final(self)@ == (State { attached: true, ..old(self)@ }),
    {
        self.attached = true;
    }

    /// Whether the effect loop is to be notified; it then is no more.
    pub fn take_notice(&mut self) -> (r: bool)
        ensures
            r == old(self)@.notice,
            final(self)@ == (State { notice: false, ..old(self)@ }),
    {
        let notice = self.notice;
        self.notice = false;
        notice
    }
}

// ---------------------------------------------------------------------------
// The effect loop
// ---------------------------------------------------------------------------

/// Default debounce delay, in nanoseconds: 4 milliseconds.
pub const DEFAULT_DEBOUNCE: u128 = 4_000_000;

/// Default maximum wait time for debouncing, in nanoseconds: 16 milliseconds.
pub const DEFAULT_MAX_DEBOUNCE: u128 = 16_000_000;

/// Default time budget for effect processing, in nanoseconds: 16 milliseconds.
pub const DEFAULT_BUDGET: u128 = 16_000_000;

/// Settings of the effect loop, in nanoseconds.
#[derive(Clone, Copy, Debug, PartialEq, Eq, Structural)]
pub struct EffectLoop {
    /// How long to wait for another notification.
    pub debounce: u128,
    /// How long to wait in all.
    pub max_debounce: u128,
    /// How long effects that can be skipped are processed.
    pub budget: u128,
}

/// What the effect loop is about to do.
#[derive(Clone, Copy, Debug, PartialEq, Eq, Structural)]
pub enum LoopPhase {
    /// Wait for a notification, however long that takes.
    Waiting,
    /// Wait for more notifications for a while.
    Debouncing,
    /// Take the notifications that are there.
    Draining,
    /// Wait until no transaction is open, then process effects.
    Processing,
    /// End: there is nobody left to notify the loop.
    Stopped,
}

/// What came of an attempt to receive a notification.
#[derive(Clone, Copy, Debug, PartialEq, Eq, Structural)]
pub enum Received {
    /// A notification.
    Notified,
    /// None, in the given time.
    Nothing,
    /// None, and none can come any more.
    Disconnected,
}

impl EffectLoop {
    /// The default settings.
    pub fn new() -> (r: Self)
        ensures
            r.debounce == DEFAULT_DEBOUNCE,
            r.max_debounce == DEFAULT_MAX_DEBOUNCE,
            r.budget == DEFAULT_BUDGET,
    {
        EffectLoop {
            debounce: DEFAULT_DEBOUNCE,
            max_debounce: DEFAULT_MAX_DEBOUNCE,
            budget: DEFAULT_BUDGET,
        }
    }

    /// Set the debounce delay: each notification is followed by such a wait for
    /// another.
    pub fn debounce(self, duration: u128) -> (r: Self)
        ensures
            r == (EffectLoop { debounce: duration, ..self }),
    {
        EffectLoop { debounce: duration, max_debounce: self.max_debounce, budget: self.budget }
    }

    /// Set the maximum wait time, after which effects are processed even if
    /// notifications keep arriving.
    pub fn max_debounce(self, duration: u128) -> (r: Self)
        ensures
            r == (EffectLoop { max_debounce: duration, ..self }),
    {
        EffectLoop { debounce: self.debounce, max_debounce: duration, budget: self.budget }
    }

    /// Set the time budget for effect processing.
    pub fn budget(self, duration: u128) -> (r: Self)
        ensures
            r == (EffectLoop { budget: duration, ..self }),
    {
        EffectLoop { debounce: self.debounce, max_debounce: self.max_debounce, budget: duration }
    }

    /// The wait for the next notification: the debounce delay, or what is left of the
    /// maximum if that is less; none at all once the maximum has been reached.
    pub open spec fn wait_after(self, elapsed: u128) -> Option<u128> {
        if elapsed >= self.max_debounce {
            None
        } else if self.debounce <= self.max_debounce - elapsed {
            Some(self.debounce)
        } else {
            Some((self.max_debounce - elapsed) as u128)
        }
    }

    /// The phase in which a loop that was in `phase` goes on: debouncing ends when the
    /// maximum has been reached.
    pub open spec fn goes_on_in(self, phase: LoopPhase, elapsed: u128) -> LoopPhase {
        if phase == LoopPhase::Debouncing && self.wait_after(elapsed) is None {
            LoopPhase::Draining
        } else {
            phase
        }
    }

    /// How long to wait for the next notification when `elapsed` nanoseconds have
    /// passed since debouncing began; `None` if the maximum has been reached.
    pub fn timeout(&self, elapsed: u128) -> (r: Option<u128>)
        ensures
            r == self.wait_after(elapsed),
    {
        if elapsed >= self.max_debounce {
            None
        } else {
            let remaining: u128 = self.max_debounce - elapsed;
            if self.debounce <= remaining {
                Some(self.debounce)
            } else {
                Some(remaining)
            }
        }
    }
}

impl Default for EffectLoop {
    fn default() -> (r: Self)
        ensures
            r.debounce == DEFAULT_DEBOUNCE,
            r.max_debounce == DEFAULT_MAX_DEBOUNCE,
            r.budget == DEFAULT_BUDGET,
    {
        Self::new()
    }
}

impl LoopPhase {
    /// The phase after an attempt to receive a notification.
    pub open spec fn after(self, received: Received) -> LoopPhase {
        match (self, received) {
            (LoopPhase::Processing, _) => LoopPhase::Processing,
            (LoopPhase::Stopped, _) => LoopPhase::Stopped,
            (_, Received::Disconnected) => LoopPhase::Stopped,
            (LoopPhase::Waiting, Received::Notified) => LoopPhase::Debouncing,
            (LoopPhase::Waiting, Received::Nothing) => LoopPhase::Waiting,
            (LoopPhase::Debouncing, Received::Notified) => LoopPhase::Debouncing,
            (LoopPhase::Debouncing, Received::Nothing) => LoopPhase::Draining,
            (LoopPhase::Draining, Received::Notified) => LoopPhase::Draining,
            (LoopPhase::Draining, Received::Nothing) => LoopPhase::Processing,
        }
    }

    /// Go on after an attempt to receive a notification: a first one is followed by
    /// debouncing, a pause by draining, an empty channel by processing.
    pub fn next(self, received: Received) -> (r: Self)
        ensures
            r == self.after(received),
    {
        match self {
            LoopPhase::Processing => LoopPhase::Processing,
            LoopPhase::Stopped => LoopPhase::Stopped,
            LoopPhase::Waiting => match received {
                Received::Notified => LoopPhase::Debouncing,
                Received::Nothing => LoopPhase::Waiting,
                Received::Disconnected => LoopPhase::Stopped,
            },
            LoopPhase::Debouncing => match received {
                Received::Notified => LoopPhase::Debouncing,
                Received::Nothing => LoopPhase::Draining,
                Received::Disconnected => LoopPhase::Stopped,
            },
            LoopPhase::Draining => match received {
                Received::Notified => LoopPhase::Draining,
                Received::Nothing => LoopPhase::Processing,
                Received::Disconnected => LoopPhase::Stopped,
            },
        }
    }
}

/// What the effect loop asks of its host.
#[derive(Clone, Copy, Debug, PartialEq, Eq, Structural)]
pub enum LoopCommand {
    /// Wait for a notification.
    Receive,
    /// Wait for a notification for so many nanoseconds.
    ReceiveFor(u128),
    /// Take a notification if there is one.
    TryReceive,
    /// Wait until no transaction is open, then begin the flush, take its steps, and end
    /// it.
    Process,
    /// End.
    Stop,
}

/// The effect loop between two things its host does for it.
pub struct LoopState {
    /// The settings.
    pub settings: EffectLoop,
    /// What the loop is about to do.
    pub phase: LoopPhase,
    /// The effects that must run with the next flush, besides the pending ones.
    pub must_run: Vec<EffectId>,
    /// The effects that can be deferred and are to be processed with the next flush,
    /// besides the pending ones.
    pub skippable: Vec<EffectId>,
}

impl LoopState {
    /// A loop that waits for its first notification.
    pub fn new(settings: EffectLoop) -> (r: Self)
        ensures
            r.settings == settings,
            r.phase == LoopPhase::Waiting,
            r.must_run@ == Seq::<EffectId>::empty(),
            r.skippable@ == Seq::<EffectId>::empty(),
    {
        LoopState {
            settings,
            phase: LoopPhase::Waiting,
            must_run: Vec::new(),
            skippable: Vec::new(),
        }
    }

    /// The phase in which the loop goes on when `elapsed` nanoseconds have passed since
    /// the first notification.
    pub open spec fn phase_at(&self, elapsed: u128) -> LoopPhase {
        self.settings.goes_on_in(self.phase, elapsed)
    }

    /// What the host is to do, when `elapsed` nanoseconds have passed since the first
    /// notification. Debouncing ends when the maximum has been reached.
    pub fn command(&mut self, elapsed: u128) -> (r: LoopCommand)
        ensures
            final(self).phase == old(self).phase_at(elapsed),
            final(self).settings == old(self).settings,
            final(self).must_run == old(self).must_run,
            final(self).skippable == old(self).skippable,
            r == (match old(self).phase_at(elapsed) {
                LoopPhase::Waiting => LoopCommand::Receive,
                LoopPhase::Debouncing => LoopCommand::ReceiveFor(
                    old(self).settings.wait_after(elapsed)->0,
                ),
                LoopPhase::Draining => LoopCommand::TryReceive,
                LoopPhase::Processing => LoopCommand::Process,
                LoopPhase::Stopped => LoopCommand::Stop,
            }),
    {
        match self.phase {
            LoopPhase::Waiting => LoopCommand::Receive,
            LoopPhase::Debouncing => match self.settings.timeout(elapsed) {
                Some(timeout) => LoopCommand::ReceiveFor(timeout),
                None => {
                    self.phase = LoopPhase::Draining;
                    LoopCommand::TryReceive
                },
            },
            LoopPhase::Draining => LoopCommand::TryReceive,
            LoopPhase::Processing => LoopCommand::Process,
            LoopPhase::Stopped => LoopCommand::Stop,
        }
    }

    /// Say what came of the attempt to receive a notification.
    pub fn received(&mut self, received: Received)
        ensures
            final(self).phase == old(self).phase.after(received),
            final(self).settings == old(self).settings,
            final(self).must_run == old(self).must_run,
            final(self).skippable == old(self).skippable,
    {
        self.phase = self.phase.next(received);
    }

    /// Begin to process effects, within the budget of the settings.
    pub fn begin_flush(&mut self, rt: &mut Runtime)
        ensures
            final(rt)@ == old(rt)@.flush_with_budget(
                old(self).settings.budget,
                old(self).must_run@,
                old(self).skippable@,
            ),
            final(self).settings == old(self).settings,
            final(self).phase == old(self).phase,
            final(self).must_run@ == Seq::<EffectId>::empty(),
            final(self).skippable@ == Seq::<EffectId>::empty(),
    {
        let mut must_run: Vec<EffectId> = Vec::new();
        let mut skippable: Vec<EffectId> = Vec::new();
        std::mem::swap(&mut must_run, &mut self.must_run);
        std::mem::swap(&mut skippable, &mut self.skippable);
        effect::flush_effects_with_budget(rt, self.settings.budget, must_run, skippable);
    }

    /// End the processing of effects: those that the flush has not reached are submitted
    /// to the background worker, and the loop waits again. Whether there is something
    /// for the worker to do.
    pub fn end_flush(&mut self, rt: &mut Runtime, queue: &mut BackgroundQueue) -> (r: bool)
        ensures
            final(self).settings == old(self).settings,
            final(self).phase == LoopPhase::Waiting,
            match old(rt)@.local.budget {
                Some(lists) => {
                    &&& r == (lists.1.len() > 0)
                    &&& final(queue)@ == insert_all(old(queue)@, lists.1)
                    &&& final(self).must_run@ == Seq::<EffectId>::empty()
                    &&& final(self).skippable@ == Seq::<EffectId>::empty()
                },
                None => {
                    &&& !r
                    &&& final(queue)@ == old(queue)@
                    &&& final(self).must_run@ == old(self).must_run@
                    &&& final(self).skippable@ == old(self).skippable@
                },
            },
            final(rt)@ == (State {
                local: LocalModel { budget: None, ..old(rt)@.local },
                ..old(rt)@
            }),
    {
        self.phase = LoopPhase::Waiting;
        match rt.take_budget_lists() {
            Some((_, skippable)) => {
                let some_left = skippable.len() > 0;
                self.must_run = Vec::new();
                self.skippable = Vec::new();
                queue.submit(skippable);
                some_left
            },
            None => false,
        }
    }
}

// ---------------------------------------------------------------------------
// The background worker
// ---------------------------------------------------------------------------

/// The effects that were deferred, each of them once.
pub struct BackgroundQueue {
    /// Their slots and generations, in the order in which they came.
    pub pending: IndexSet<(u32, u64), FastHashBuilder>,
}

impl View for BackgroundQueue {
    type V = Seq<EffectId>;

    open spec fn view(&self) -> Seq<EffectId> {
        store::set_members(self.pending).map_values(runtime::effect_of())
    }
}

/// `s` with the effects of `list` at its end, without repetitions.
pub open spec fn insert_all(s: Seq<EffectId>, list: Seq<EffectId>) -> Seq<EffectId>
    decreases list.len(),
{
    if list.len() == 0 {
        s
    } else {
        insert_all(model::insert_once(s, list[0]), list.drop_first())
    }
}

impl BackgroundQueue {
    /// A queue with nothing in it.
    pub fn new() -> (r: Self)
        ensures
            r@ == Seq::<EffectId>::empty(),
    {
        BackgroundQueue { pending: store::new_set() }
    }

    /// Submit effects. One that is waiting already keeps its place.
    pub fn submit(&mut self, effects: Vec<EffectId>)
        ensures
            final(self)@ == insert_all(old(self)@, effects@),
    {
        let mut i: usize = 0;
        proof {
            assert(effects@.skip(0) =~= effects@);
        }
        while i < effects.len()
            invariant
                i <= effects.len(),
                insert_all(self@, effects@.skip(i as int)) == insert_all(old(self)@, effects@),
            decreases effects.len() - i,
        {
            proof {
                facts::lemma_effects_of(
                    store::set_members(self.pending),
                    (effects@[i as int].0, effects@[i as int].1),
                );
                assert(effects@.skip(i as int).drop_first() =~= effects@.skip(i + 1));
            }
            store::set_insert(&mut self.pending, (effects[i].0, effects[i].1));
            i = i + 1;
        }
    }

    /// Begin to update the effect that came last. Whether there was one.
    pub fn work(&mut self, rt: &mut Runtime) -> (r: bool)
        ensures
            r == (old(self)@.len() > 0),
            r ==> final(self)@ == old(self)@.drop_last() && final(rt)@ == old(rt)@.update(
                old(self)@.last(),
                false,
            ),
            !r ==> final(self)@ == old(self)@ && final(rt)@ == old(rt)@,
    {
        match self.pop() {
            Some(effect_id) => {
                effect_id.update_if_necessary(rt, false);
                true
            },
            None => false,
        }
    }

    /// The effect to update next: the one that came last.
    pub fn pop(&mut self) -> (r: Option<EffectId>)
        ensures
            match r {
                Some(e) => old(self)@.len() > 0 && e == old(self)@.last() && final(self)@ == old(
                    self,
                )@.drop_last(),
                None => old(self)@.len() == 0 && final(self)@ == old(self)@,
            },
    {
        match store::set_pop(&mut self.pending) {
            Some(x) => {
                proof {
                    assert(self@ =~= old(self)@.drop_last());
                }
                Some(EffectId(x.0, x.1))
            },
            None => None,
        }
    }
}

} // verus!
