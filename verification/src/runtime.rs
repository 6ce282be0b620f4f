//! The runtime: everything the library keeps between two calls.
//!
//! A [`Runtime`] holds the two arenas, the pending set, the maps of parents,
//! children and writers, and what the running thread has of its own. All
//! operations of the library take it as an argument. A host that runs several
//! threads keeps one `Runtime` behind a lock and one [`Local`] for each thread,
//! and exchanges them with [`Runtime::swap_local`] when a thread has the lock.
use vstd::prelude::*;

use indexmap::IndexSet;
use papaya::HashMap;
use slab::Slab;

use crate::arena::effect_arena::EffectFn;
use crate::arena::effect_arena::EffectId;
use crate::arena::effect_arena::EffectMetadata;
use crate::arena::signal_arena::SignalId;
use crate::arena::signal_arena::SignalMetadata;
use crate::hash::FastHashBuilder;
use crate::model::EffectModel;
use crate::model::FrameModel;
use crate::model::LocalModel;
use crate::model::RunKind;
use crate::model::State;
use crate::store;

verus! {

/// One activity that is under way.
#[allow(inconsistent_fields)]
pub enum Frame {
    /// An effect is to be run if that is necessary.
    Update { effect: EffectId, skip: bool },
    /// An effect is to be run.
    Start { effect: EffectId, kind: RunKind },
    /// The callback of an effect runs; `previous` was the current effect before.
    Running { effect: EffectId, previous: Option<EffectId>, kind: RunKind },
    /// The sources of an effect in state Check are pulled, one by one.
    Verify { effect: EffectId, sources: Vec<SignalId>, next: usize, skip: bool },
    /// The writers of a signal are updated, one by one.
    Pull { writers: Vec<EffectId>, next: usize, current: Option<EffectId>, skip: bool },
    /// An effect is to be subscribed to a signal.
    Track { signal: SignalId, effect: Option<EffectId> },
    /// The pending effects are processed until none is left.
    Flush { ids: Vec<EffectId>, next: usize, total: usize },
    /// The pending effects are processed within a time budget of `limit`
    /// nanoseconds; `over` is `None` while the skippable ones are at it.
    Budget {
        must_run: Vec<EffectId>,
        skippable: Vec<EffectId>,
        next: usize,
        limit: u128,
        over: Option<bool>,
    },
    /// Effect processing is to be scheduled.
    Schedule,
}

impl View for Frame {
    type V = FrameModel;

    open spec fn view(&self) -> FrameModel {
        match *self {
            Frame::Update { effect, skip } => FrameModel::Update { effect, skip },
            Frame::Start { effect, kind } => FrameModel::Start { effect, kind },
            Frame::Running { effect, previous, kind } => FrameModel::Running {
                effect,
                previous,
                kind,
            },
            Frame::Verify { effect, sources, next, skip } => FrameModel::Verify {
                effect,
                sources: sources@,
                next: next as nat,
                skip,
            },
            Frame::Pull { writers, next, current, skip } => FrameModel::Pull {
                writers: writers@,
                next: next as nat,
                current,
                skip,
            },
            Frame::Track { signal, effect } => FrameModel::Track { signal, effect },
            Frame::Flush { ids, next, total } => FrameModel::Flush {
                ids: ids@,
                next: next as nat,
                total,
            },
            Frame::Budget { must_run, skippable, next, limit, over } => FrameModel::Budget {
                must_run: must_run@,
                skippable: skippable@,
                next: next as nat,
                limit,
                over,
            },
            Frame::Schedule => FrameModel::Schedule,
        }
    }
}

/// What a frame stands for.
pub open spec fn frame_view() -> spec_fn(Frame) -> FrameModel {
    |f: Frame| f@
}

/// What a thread has of its own.
pub struct Local {
    /// The effect whose callback runs, if dependencies are tracked.
    pub current: Option<EffectId>,
    /// Effect processing has been scheduled.
    pub scheduled: bool,
    /// How many transactions are open.
    pub depth: usize,
    /// UI updates are suppressed.
    pub suppress: bool,
    /// The activities under way, the innermost last.
    pub frames: Vec<Frame>,
    /// How many effects the last completed flush has processed.
    pub processed: usize,
    /// The last completed update has run its effect.
    pub updated: bool,
    /// The two lists of the last completed flush with a budget.
    pub budget: Option<(Vec<EffectId>, Vec<EffectId>)>,
    /// The last effect seen to read and write the same signal.
    pub warning: Option<(EffectId, SignalId)>,
}

/// What a pair of lists stands for.
pub open spec fn budget_view(b: Option<(Vec<EffectId>, Vec<EffectId>)>) -> Option<
    (Seq<EffectId>, Seq<EffectId>),
> {
    match b {
        Some(lists) => Some((lists.0@, lists.1@)),
        None => None,
    }
}

impl View for Local {
    type V = LocalModel;

    open spec fn view(&self) -> LocalModel {
        LocalModel {
            current: self.current,
            scheduled: self.scheduled,
            depth: self.depth as nat,
            suppress: self.suppress,
            frames: self.frames@.map_values(frame_view()),
            processed: self.processed,
            updated: self.updated,
            budget: budget_view(self.budget),
            warning: self.warning,
        }
    }
}

impl LocalModel {
    /// A thread that has done nothing yet.
    pub open spec fn fresh() -> LocalModel {
        LocalModel {
            current: None,
            scheduled: false,
            depth: 0,
            suppress: false,
            frames: Seq::empty(),
            processed: 0,
            updated: false,
            budget: None,
            warning: None,
        }
    }
}

impl Local {
    /// The state of a thread that has done nothing yet.
    pub fn new() -> (r: Self)
        ensures
            r@ == LocalModel::fresh(),
    {
        Local {
            current: None,
            scheduled: false,
            depth: 0,
            suppress: false,
            frames: Vec::new(),
            processed: 0,
            updated: false,
            budget: None,
            warning: None,
        }
    }
}

/// What the host is to do after a step.
pub enum Action {
    /// Take the next step.
    Continue,
    /// Call the function of this effect and hand it back with
    /// [`finish_callback`](crate::runtime::Runtime::finish_callback).
    Run(EffectId, EffectFn),
    /// Say with [`clock`](crate::runtime::Runtime::clock) how much time has passed
    /// since the flush began.
    Clock,
    /// Nothing: all that was asked for is done, or waits for a callback to return.
    Done,
}

/// Everything the library keeps between two calls.
pub struct Runtime {
    /// The signal arena.
    pub signals: Slab<SignalMetadata>,
    /// How many signals each slot of the signal arena has held before.
    pub signal_gens: Vec<u64>,
    /// The effect arena.
    pub effects: Slab<EffectMetadata>,
    /// How many effects each slot of the effect arena has held before.
    pub effect_gens: Vec<u64>,
    /// The effects that wait to be processed, in the order in which they came.
    pub pending: IndexSet<(u32, u64), FastHashBuilder>,
    /// The parent of an effect.
    pub parents: HashMap<(u32, u64), EffectId>,
    /// The children of an effect.
    pub children: HashMap<(u32, u64), Vec<EffectId>>,
    /// The effects that write to a signal.
    pub writers: HashMap<(u32, u64), Vec<EffectId>>,
    /// How many threads are in a transaction.
    pub active: usize,
    /// An effect loop is there to be notified.
    pub attached: bool,
    /// The effect loop is to be notified.
    pub notice: bool,
    /// What the running thread has of its own.
    pub local: Local,
}

/// What a slot of the signal arena stands for.
pub open spec fn signal_slot_view() -> spec_fn(Option<SignalMetadata>) -> Option<Seq<EffectId>> {
    |s: Option<SignalMetadata>|
        match s {
            Some(m) => Some(m@),
            None => None,
        }
}

/// What a slot of the effect arena stands for.
pub open spec fn effect_slot_view() -> spec_fn(Option<EffectMetadata>) -> Option<EffectModel> {
    |s: Option<EffectMetadata>|
        match s {
            Some(m) => Some(m@),
            None => None,
        }
}

/// The effect with a slot and a generation.
pub open spec fn effect_of() -> spec_fn((u32, u64)) -> EffectId {
    |x: (u32, u64)| EffectId(x.0, x.1)
}

/// A map by slot and generation, as a map by effects.
pub open spec fn by_effect<V>(m: Map<(u32, u64), V>) -> Map<EffectId, V> {
    Map::new(|e: EffectId| m.contains_key((e.0, e.1)), |e: EffectId| m[(e.0, e.1)])
}

/// A map by slot and generation, as a map by signals.
pub open spec fn by_signal<V>(m: Map<(u32, u64), V>) -> Map<SignalId, V> {
    Map::new(|g: SignalId| m.contains_key((g.0, g.1)), |g: SignalId| m[(g.0, g.1)])
}

impl View for Runtime {
    type V = State;

    open spec fn view(&self) -> State {
        State {
            signals: store::signal_slots(self.signals).map_values(signal_slot_view()),
            signal_gens: self.signal_gens@,
            effects: store::effect_slots(self.effects).map_values(effect_slot_view()),
            effect_gens: self.effect_gens@,
            pending: store::set_members(self.pending).map_values(effect_of()),
            parents: by_effect(store::parent_links(self.parents)),
            children: by_effect(store::effect_lists(self.children)),
            writers: by_signal(store::effect_lists(self.writers)),
            active: self.active as nat,
            attached: self.attached,
            notice: self.notice,
            local: self.local@,
        }
    }
}

impl State {
    /// A runtime in which nothing has happened yet.
    pub open spec fn fresh() -> State {
        State {
            signals: Seq::empty(),
            signal_gens: Seq::empty(),
            effects: Seq::empty(),
            effect_gens: Seq::empty(),
            pending: Seq::empty(),
            parents: Map::empty(),
            children: Map::empty(),
            writers: Map::empty(),
            active: 0,
            attached: false,
            notice: false,
            local: LocalModel::fresh(),
        }
    }
}

impl Runtime {
    /// A runtime in which nothing has happened yet.
    pub fn new() -> (r: Self)
        ensures
            r@ == State::fresh(),
    {
        Runtime {
            signals: store::new_signal_slab(),
            signal_gens: Vec::new(),
            effects: store::new_effect_slab(),
            effect_gens: Vec::new(),
            pending: store::new_set(),
            parents: store::new_links(),
            children: store::new_lists(),
            writers: store::new_lists(),
            active: 0,
            attached: false,
            notice: false,
            local: Local::new(),
        }
    }

    /// Exchange what the running thread has of its own with `other`.
    pub fn swap_local(&mut self, other: &mut Local)
        ensures
            final(self)@ == (State { local: old(other)@, ..old(self)@ }),
            final(other)@ == old(self)@.local,
    {
        std::mem::swap(&mut self.local, other);
    }
}

} // verus!
