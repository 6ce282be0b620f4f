//! Effects: functions that run again when what they have read changes.
use vstd::prelude::*;

use crate::arena::effect_arena;
use crate::arena::effect_arena::CurrentEffectGuard;
use crate::arena::effect_arena::EffectFn;
use crate::arena::effect_arena::EffectId;
use crate::arena::effect_arena::EffectMetadata;
use crate::arena::signal_arena::SignalId;
use crate::executor;
use crate::model::EffectModel;
use crate::model::LocalModel;
use crate::model::RunKind;
use crate::model::State;
use crate::runtime;
use crate::runtime::Frame;
use crate::runtime::Runtime;

verus! {

/// Schedule effect processing without running anything, and tell the effect loop,
/// if there is one. Several calls schedule one processing.
pub fn schedule_effect_processing(rt: &mut Runtime)
    ensures
        final(rt)@ == old(rt)@.schedule(),
{
    rt.local.scheduled = true;
    executor::notify_effect_loop(rt);
}

/// Whether effect processing has been scheduled and no flush has begun since.
pub fn is_processing_scheduled(rt: &Runtime) -> (r: bool)
    ensures
        r == rt@.local.scheduled,
{
    rt.local.scheduled
}

/// Begin to process all pending effects. When the activity is over,
/// [`Runtime::processed`] says how many were processed.
pub fn flush_effects(rt: &mut Runtime)
    ensures
        final(rt)@ == old(rt)@.flush(),
{
    rt.local.scheduled = false;
    Effect::process_all(rt);
}

/// Begin to process the pending effects, and those of the two lists, within `budget`
/// nanoseconds. Effects that can be skipped come first, until the time is over; those
/// that must run come after them in any case. When the activity is over,
/// [`Runtime::take_budget_lists`] gives the two lists back, the second without what
/// has been processed.
pub fn flush_effects_with_budget(
    rt: &mut Runtime,
    budget: u128,
    must_run: Vec<EffectId>,
    skippable: Vec<EffectId>,
)
    ensures
        final(rt)@ == old(rt)@.flush_with_budget(budget, must_run@, skippable@),
{
    rt.local.scheduled = false;
    let mut must_run = must_run;
    let mut skippable = skippable;
    proof {
        assert(rt@.pending_split() == old(rt)@.pending_split()) by {
            let a = |e: EffectId| !rt@.is_skippable(e);
            let b = |e: EffectId| !old(rt)@.is_skippable(e);
            assert(a =~= b);
            let c = |e: EffectId| rt@.is_skippable(e);
            let d = |e: EffectId| old(rt)@.is_skippable(e);
            assert(c =~= d);
        }
    }
    effect_arena::take_pending_effects_split(rt, &mut must_run, &mut skippable);
    rt.push_frame(Frame::Budget { must_run, skippable, next: 0, limit: budget, over: None });
}

/// Begin to run an effect that is not Clean.
pub fn run_single_effect(rt: &mut Runtime, effect_id: EffectId)
    ensures
        final(rt)@ == old(rt)@.start(effect_id, RunKind::Single),
{
    rt.push_frame(Frame::Start { effect: effect_id, kind: RunKind::Single });
}

/// Call a function without tracking dependencies: there is no current effect
/// meanwhile.
pub fn untracked<F, R>(rt: &mut Runtime, f: F) -> (r: R) where F: FnOnce(&mut Runtime) -> R
    requires
        forall|m: &mut Runtime|
            (*m)@ == old(rt)@.with_current(None) ==> #[trigger] f.requires((m,)),
    ensures
        exists|m: &mut Runtime|
            {
                &&& (*m)@ == old(rt)@.with_current(None)
                &&& #[trigger] f.ensures((m,), r)
                &&& final(rt)@ == (*final(m))@.with_current(old(rt)@.local.current)
            },
{
    let guard = CurrentEffectGuard::new(rt, None);
    let r = f(rt);
    guard.restore(rt);
    r
}

/// Side-effectful computation that runs again when its dependencies change.
pub struct Effect {
    /// Where the arena holds it.
    pub id: EffectId,
}

impl Effect {
    /// Create an effect under the current one, and begin its first run.
    pub fn new(rt: &mut Runtime, callback: EffectFn) -> (r: Self)
        ensures
            exists|key: usize|
                #![trigger old(rt)@.vacant_effect(key as nat)]
                old(rt)@.vacant_effect(key as nat) && r.id == old(rt)@.effect_at(key as u32)
                    && final(rt)@ == old(rt)@.create(
                    key as nat,
                    r.id,
                    EffectModel::fresh(Some(callback), false, false),
                ).start(r.id, RunKind::Now),
    {
        Self::new_internal(rt, callback, false, false)
    }

    /// As `new`, for an effect that can be deferred under load.
    pub fn new_skippable(rt: &mut Runtime, callback: EffectFn) -> (r: Self)
        ensures
            exists|key: usize|
                #![trigger old(rt)@.vacant_effect(key as nat)]
                old(rt)@.vacant_effect(key as nat) && r.id == old(rt)@.effect_at(key as u32)
                    && final(rt)@ == old(rt)@.create(
                    key as nat,
                    r.id,
                    EffectModel::fresh(Some(callback), true, false),
                ).start(r.id, RunKind::Now),
    {
        Self::new_internal(rt, callback, true, false)
    }

    /// As `new`, for an effect that is not told of changes from the UI.
    pub fn new_ui_updates_only(rt: &mut Runtime, callback: EffectFn) -> (r: Self)
        ensures
            exists|key: usize|
                #![trigger old(rt)@.vacant_effect(key as nat)]
                old(rt)@.vacant_effect(key as nat) && r.id == old(rt)@.effect_at(key as u32)
                    && final(rt)@ == old(rt)@.create(
                    key as nat,
                    r.id,
                    EffectModel::fresh(Some(callback), false, true),
                ).start(r.id, RunKind::Now),
    {
        Self::new_internal(rt, callback, false, true)
    }

    /// Create an effect with the given flags, and begin its first run.
    fn new_internal(
        rt: &mut Runtime,
        callback: EffectFn,
        skippable: bool,
        ui_updates_only: bool,
    ) -> (r: Self)
        ensures
            exists|key: usize|
                #![trigger old(rt)@.vacant_effect(key as nat)]
                old(rt)@.vacant_effect(key as nat) && r.id == old(rt)@.effect_at(key as u32)
                    && final(rt)@ == old(rt)@.create(
                    key as nat,
                    r.id,
                    EffectModel::fresh(Some(callback), skippable, ui_updates_only),
                ).start(r.id, RunKind::Now),
    {
        let parent = effect_arena::current_effect(rt);
        let metadata = EffectMetadata::new_with_callback_parent_and_flags(
            callback,
            parent,
            skippable,
            ui_updates_only,
        );
        let id = effect_arena::effect_arena_insert(rt, metadata);
        adopt(rt, id);
        let effect = Effect { id };
        effect.run_now(rt);
        effect
    }

    /// Begin to run this effect: old subscriptions go, and it is Clean afterwards.
    pub fn run_now(&self, rt: &mut Runtime)
        ensures
            final(rt)@ == old(rt)@.start(self.id, RunKind::Now),
    {
        rt.push_frame(Frame::Start { effect: self.id, kind: RunKind::Now });
    }

    /// Mark this effect for later processing.
    pub fn invalidate(&self, rt: &mut Runtime)
        ensures
            final(rt)@ == old(rt)@.mark_pending(self.id),
    {
        effect_arena::mark_effect_pending(rt, self.id);
    }

    /// The identifier of this effect.
    pub fn id(&self) -> (r: EffectId)
        ensures
            r == self.id,
    {
        self.id
    }

    /// The effect with a given identifier.
    pub fn from_raw(id: EffectId) -> (r: Self)
        ensures
            r.id == id,
    {
        Effect { id }
    }

    /// Begin to process pending effects until there are none. When the activity is
    /// over, [`Runtime::processed`] says how many were processed.
    pub fn process_all(rt: &mut Runtime)
        ensures
            final(rt)@ == old(rt)@.process_all(),
    {
        rt.push_frame(Frame::Flush { ids: Vec::new(), next: 0, total: 0 });
    }

    /// Give the effect up. A child stays in the arena, for its parent to destroy, but
    /// reacts to nothing; any other effect goes with all under it.
    pub fn dispose(self, rt: &mut Runtime)
        ensures
            final(rt)@ == old(rt)@.dispose_effect(self.id),
    {
        let has_parent = self.id.parent(rt).is_some();
        effect_arena::remove_from_pending_set(rt, self.id);
        if self.id.get(rt).is_none() {
            return ;
        }
        self.id.unsubscribe(rt);
        self.id.unregister(rt);
        if has_parent {
            return ;
        }
        effect_arena::destroy_children(rt, self.id);
        effect_arena::effect_arena_remove(rt, self.id);
    }
}

/// Make an effect a child of the current one, if there is one.
pub(crate) fn adopt(rt: &mut Runtime, id: EffectId)
    ensures
        final(rt)@ == old(rt)@.adopt(id),
{
    if let Some(parent_id) = effect_arena::current_effect(rt) {
        effect_arena::set_effect_parent(rt, id, parent_id);
        parent_id.add_child(rt, id);
    }
}

impl EffectId {
    /// Begin to call the callback of this effect, and nothing else.
    pub fn run_callback(self, rt: &mut Runtime)
        ensures
            final(rt)@ == old(rt)@.start(self, RunKind::Bare),
    {
        rt.push_frame(Frame::Start { effect: self, kind: RunKind::Bare });
    }

    /// Begin to run this effect if that is necessary. When the activity is over,
    /// [`Runtime::updated`] says whether it was.
    ///
    /// If `skip_skippable` is true, effects that can be deferred are not run while
    /// the sources are looked at.
    pub fn update_if_necessary(self, rt: &mut Runtime, skip_skippable: bool)
        ensures
            final(rt)@ == old(rt)@.update(self, skip_skippable),
    {
        rt.push_frame(Frame::Update { effect: self, skip: skip_skippable });
    }
}

impl SignalId {
    /// Begin to bring this signal up to date: its writers are updated, except the
    /// current effect and, if `skip_skippable` is true, those that can be deferred.
    pub fn pull(self, rt: &mut Runtime, skip_skippable: bool)
        ensures
            final(rt)@ == old(rt)@.pull(self, skip_skippable),
    {
        rt.pull_signal(self, skip_skippable);
    }

    /// Begin to bring this signal up to date, and then to track it as a dependency of
    /// the current effect, if there is one.
    pub fn track_dependency(self, rt: &mut Runtime)
        ensures
            final(rt)@ == old(rt)@.pull_and_track(self),
    {
        let effect = effect_arena::current_effect(rt);
        rt.push_frame(Frame::Track { signal: self, effect });
        self.pull(rt, false);
    }
}

impl Runtime {
    /// How many effects the last completed flush has processed.
    pub fn processed(&self) -> (r: usize)
        ensures
            r == self@.local.processed,
    {
        self.local.processed
    }

    /// Whether the last completed update has run its effect.
    pub fn updated(&self) -> (r: bool)
        ensures
            r == self@.local.updated,
    {
        self.local.updated
    }

    /// The two lists of the last completed flush with a budget, handed out once.
    pub fn take_budget_lists(&mut self) -> (r: Option<(Vec<EffectId>, Vec<EffectId>)>)
        ensures
            runtime::budget_view(r) == old(self)@.local.budget,
            final(self)@ == (State {
                local: LocalModel { budget: None, ..old(self)@.local },
                ..old(self)@
            }),
    {
        self.local.budget.take()
    }

    /// The last effect seen to read and write the same signal, handed out once.
    pub fn take_warning(&mut self) -> (r: Option<(EffectId, SignalId)>)
        ensures
            r == old(self)@.local.warning,
            final(self)@ == (State {
                local: LocalModel { warning: None, ..old(self)@.local },
                ..old(self)@
            }),
    {
        self.local.warning.take()
    }
}

} // verus!
