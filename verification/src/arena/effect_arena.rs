//! Storage for effect and computed metadata.
use vstd::prelude::*;

use crate::arena::signal_arena::SignalId;
use crate::arena::generations;
use crate::arena::signal_arena;
use crate::lists;
use crate::model;
use crate::model::facts;
use crate::model::spread;
use crate::model::EffectModel;
use crate::model::Link;
use crate::model::State;
use crate::runtime;
use crate::runtime::Runtime;
use crate::store;

verus! {

/// The function of an effect, written by the user of the library.
///
/// It takes nothing: what it reads and emits it reaches through whatever shared
/// handle on the runtime its author gave it.
pub trait Callback: Send {
    /// Run the function once.
    fn call(&mut self);
}

/// A boxed [`Callback`], as the effect arena holds it.
pub struct EffectFn {
    /// The function.
    pub body: Box<dyn Callback>,
}

/// Call a boxed function once: what is in the box is left as [`Callback::call`] leaves
/// it.
pub fn call_boxed<C: Callback + ?Sized>(f: &mut Box<C>)
    ensures
        exists|m: &mut C|
            {
                &&& &*m == &**old(f)
                &&& #[trigger] call_ensures(C::call, (m,), ())
                &&& &*final(m) == &**final(f)
            },
{
    let inner: &mut C = &mut **f;
    inner.call();
}

/// Reactive node states.
///
/// States only upgrade (Clean -> Check -> Dirty) while a change spreads. When the
/// node is recomputed, its state is Clean again.
#[derive(Clone, Copy, Debug, PartialEq, Eq, PartialOrd, Ord, Structural)]
pub enum ReactiveState {
    /// Value is current, use cached.
    Clean,
    /// Might be stale, verify parents first.
    Check,
    /// Definitely stale, must recompute.
    Dirty,
}

impl ReactiveState {
    /// The state that a number stands for: 0 is Clean, 1 is Check, all others are Dirty.
    pub fn from_u8(v: u8) -> (r: Self)
        ensures
            v == 0 ==> r == ReactiveState::Clean,
            v == 1 ==> r == ReactiveState::Check,
            v >= 2 ==> r == ReactiveState::Dirty,
    {
        if v == 0 {
            ReactiveState::Clean
        } else if v == 1 {
            ReactiveState::Check
        } else {
            ReactiveState::Dirty
        }
    }

    /// Whether this state comes before `other` in Clean -> Check -> Dirty.
    pub fn below(self, other: ReactiveState) -> (r: bool)
        ensures
            r == (model::graph::rank(self) < model::graph::rank(other)),
    {
        match other {
            ReactiveState::Clean => false,
            ReactiveState::Check => self == ReactiveState::Clean,
            ReactiveState::Dirty => self != ReactiveState::Dirty,
        }
    }
}

/// Unique identifier of an effect or computed node: its slot in the arena, and how many
/// nodes that slot has held before it.
///
/// An effect that is removed from the arena leaves its identifier stale. Access
/// through a stale identifier finds nothing, even when another effect has the slot.
#[derive(Clone, Copy, Debug, PartialEq, Eq, Hash, Structural)]
pub struct EffectId(pub u32, pub u64);

/// How a signal is related to an effect: as a source (read), an output (written) or both.
#[derive(Clone, Copy, Debug, Default, PartialEq, Eq, Structural)]
pub struct SignalRelation {
    /// The effect reads the signal.
    pub is_source: bool,
    /// The effect writes the signal.
    pub is_output: bool,
    /// All its writes came from the UI.
    pub from_ui: bool,
    /// The effect computes a value, and this is the signal of that value.
    pub is_own: bool,
}

// ---------------------------------------------------------------------------
// Iterators
// ---------------------------------------------------------------------------

/// The links behind which `done` of them lie.
pub open spec fn links_from(links: Seq<Link>, done: int) -> Seq<Link> {
    if done < links.len() {
        links.skip(done)
    } else {
        Seq::empty()
    }
}

/// Iterator over the signals an effect reads.
pub struct SourcesIter<'a> {
    /// The links of the effect.
    pub links: &'a Vec<Link>,
    /// How many of them are behind.
    pub done: usize,
}

impl<'a> View for SourcesIter<'a> {
    type V = Seq<SignalId>;

    /// The signals still to come.
    open spec fn view(&self) -> Seq<SignalId> {
        model::sources_of(links_from(self.links@, self.done as int))
    }
}

impl<'a> SourcesIter<'a> {
    /// The next signal, if there is one.
    pub fn next(&mut self) -> (r: Option<SignalId>)
        ensures
            match r {
                Some(x) => old(self)@.len() > 0 && x == old(self)@[0] && final(self)@ == old(
                    self,
                )@.drop_first(),
                None => old(self)@.len() == 0 && final(self)@ == old(self)@,
            },
    {
        while self.done < self.links.len()
            invariant
                self@ == old(self)@,
            decreases self.links.len() - self.done,
        {
            let l = self.links[self.done];
            proof {
                let rest = links_from(self.links@, self.done as int);
                assert(rest.drop_first() =~= links_from(self.links@, self.done + 1));
                lists::lemma_links_first(rest);
            }
            self.done = self.done + 1;
            if l.1.is_source {
                proof {
                    assert(old(self)@.drop_first() =~= self@);
                }
                return Some(l.0);
            }
        }
        proof {
            lists::lemma_no_links();
        }
        None
    }

    /// Bounds on how many signals are still to come: at most as many as there are links
    /// left.
    pub fn size_hint(&self) -> (r: (usize, Option<usize>))
        ensures
            r.0 == 0,
            r.1 == Some(links_from(self.links@, self.done as int).len() as usize),
            self@.len() <= r.1->0,
    {
        proof {
            lists::lemma_sources_len(links_from(self.links@, self.done as int));
            assert(self.links@.len() == self.links.len());
        }
        let left: usize = if self.done < self.links.len() {
            self.links.len() - self.done
        } else {
            0
        };
        (0, Some(left))
    }

    /// How many signals are still to come.
    pub fn count(self) -> (r: usize)
        ensures
            r == self@.len(),
    {
        let mut rest = self;
        let mut n: usize = 0;
        proof {
            lists::lemma_sources_len(links_from(self.links@, self.done as int));
            assert(self.links@.len() == self.links.len());
        }
        loop
            invariant
                n + rest@.len() == self@.len(),
                self@.len() <= usize::MAX,
            decreases rest@.len(),
        {
            match rest.next() {
                Some(_) => {
                    n = n + 1;
                },
                None => {
                    return n;
                },
            }
        }
    }
}

/// Iterator over the signals an effect writes.
pub struct OutputsIter<'a> {
    /// The links of the effect.
    pub links: &'a Vec<Link>,
    /// How many of them are behind.
    pub done: usize,
}

impl<'a> View for OutputsIter<'a> {
    type V = Seq<SignalId>;

    /// The signals still to come.
    open spec fn view(&self) -> Seq<SignalId> {
        model::outputs_of(links_from(self.links@, self.done as int))
    }
}

impl<'a> OutputsIter<'a> {
    /// The next signal, if there is one.
    pub fn next(&mut self) -> (r: Option<SignalId>)
        ensures
            match r {
                Some(x) => old(self)@.len() > 0 && x == old(self)@[0] && final(self)@ == old(
                    self,
                )@.drop_first(),
                None => old(self)@.len() == 0 && final(self)@ == old(self)@,
            },
    {
        while self.done < self.links.len()
            invariant
                self@ == old(self)@,
            decreases self.links.len() - self.done,
        {
            let l = self.links[self.done];
            proof {
                let rest = links_from(self.links@, self.done as int);
                assert(rest.drop_first() =~= links_from(self.links@, self.done + 1));
                lists::lemma_links_first(rest);
            }
            self.done = self.done + 1;
            if l.1.is_output {
                proof {
                    assert(old(self)@.drop_first() =~= self@);
                }
                return Some(l.0);
            }
        }
        proof {
            lists::lemma_no_links();
        }
        None
    }

    /// Bounds on how many signals are still to come: at most as many as there are links
    /// left.
    pub fn size_hint(&self) -> (r: (usize, Option<usize>))
        ensures
            r.0 == 0,
            r.1 == Some(links_from(self.links@, self.done as int).len() as usize),
            self@.len() <= r.1->0,
    {
        proof {
            lists::lemma_sources_len(links_from(self.links@, self.done as int));
            assert(self.links@.len() == self.links.len());
        }
        let left: usize = if self.done < self.links.len() {
            self.links.len() - self.done
        } else {
            0
        };
        (0, Some(left))
    }

    /// How many signals are still to come.
    pub fn count(self) -> (r: usize)
        ensures
            r == self@.len(),
    {
        let mut rest = self;
        let mut n: usize = 0;
        proof {
            lists::lemma_sources_len(links_from(self.links@, self.done as int));
            assert(self.links@.len() == self.links.len());
        }
        loop
            invariant
                n + rest@.len() == self@.len(),
                self@.len() <= usize::MAX,
            decreases rest@.len(),
        {
            match rest.next() {
                Some(_) => {
                    n = n + 1;
                },
                None => {
                    return n;
                },
            }
        }
    }
}

// ---------------------------------------------------------------------------
// Metadata
// ---------------------------------------------------------------------------

/// The flag of an effect that can be deferred under load.
pub const FLAG_SKIPPABLE: u8 = 1;

/// The flag of an effect that is not told of changes from the UI.
pub const FLAG_UI_UPDATES_ONLY: u8 = 2;

/// Unified metadata of effects and computed values.
///
/// Parents and children are not in it: the runtime holds them in maps of their own.
pub struct EffectMetadata {
    /// Clean, Check or Dirty.
    pub state: ReactiveState,
    /// `FLAG_SKIPPABLE` and `FLAG_UI_UPDATES_ONLY`.
    pub flags: u8,
    /// The effect function; `None` while it runs, and for a node without one.
    pub callback: Option<EffectFn>,
    /// The signals related to this effect, each of them once.
    pub signals: Vec<Link>,
}

impl View for EffectMetadata {
    type V = EffectModel;

    open spec fn view(&self) -> EffectModel {
        EffectModel {
            state: self.state,
            skippable: self.flags & FLAG_SKIPPABLE != 0,
            ui_only: self.flags & FLAG_UI_UPDATES_ONLY != 0,
            callback: self.callback,
            signals: self.signals@,
        }
    }
}

/// What each flag byte says.
proof fn lemma_flags()
    ensures
        0u8 & FLAG_SKIPPABLE == 0,
        0u8 & FLAG_UI_UPDATES_ONLY == 0,
        1u8 & FLAG_SKIPPABLE != 0,
        1u8 & FLAG_UI_UPDATES_ONLY == 0,
        2u8 & FLAG_SKIPPABLE == 0,
        2u8 & FLAG_UI_UPDATES_ONLY != 0,
        3u8 & FLAG_SKIPPABLE != 0,
        3u8 & FLAG_UI_UPDATES_ONLY != 0,
{
    assert(0u8 & 1u8 == 0 && 0u8 & 2u8 == 0 && 1u8 & 1u8 != 0 && 1u8 & 2u8 == 0 && 2u8 & 1u8 == 0
        && 2u8 & 2u8 != 0 && 3u8 & 1u8 != 0 && 3u8 & 2u8 != 0) by (bit_vector);
}

impl EffectModel {
    /// A Clean node without links.
    pub open spec fn fresh(
        callback: Option<EffectFn>,
        skippable: bool,
        ui_only: bool,
    ) -> EffectModel {
        EffectModel {
            state: ReactiveState::Clean,
            skippable,
            ui_only,
            callback,
            signals: Seq::empty(),
        }
    }
}

impl EffectMetadata {
    /// Metadata of a Clean node without a callback.
    pub fn new() -> (r: Self)
        ensures
            r@ == EffectModel::fresh(None, false, false),
    {
        proof {
            lemma_flags();
        }
        EffectMetadata {
            state: ReactiveState::Clean,
            flags: 0,
            callback: None,
            signals: Vec::new(),
        }
    }

    /// Metadata of a Clean effect.
    pub fn new_with_callback(callback: EffectFn) -> (r: Self)
        ensures
            r@ == EffectModel::fresh(Some(callback), false, false),
    {
        proof {
            lemma_flags();
        }
        EffectMetadata {
            state: ReactiveState::Clean,
            flags: 0,
            callback: Some(callback),
            signals: Vec::new(),
        }
    }

    /// Metadata of a Clean effect that has a parent. The parent is not part of it.
    pub fn new_with_callback_and_parent(
        callback: EffectFn,
        _parent: Option<EffectId>,
    ) -> (r: Self)
        ensures
            r@ == EffectModel::fresh(Some(callback), false, false),
    {
        Self::new_with_callback(callback)
    }

    /// Metadata of a Dirty node without a callback.
    pub fn new_dirty() -> (r: Self)
        ensures
            r@ == (EffectModel {
                state: ReactiveState::Dirty,
                ..EffectModel::fresh(None, false, false)
            }),
    {
        let mut r = Self::new();
        r.state = ReactiveState::Dirty;
        r
    }

    /// Metadata of a Clean effect with the given flags. The parent is not part of it.
    pub fn new_with_callback_parent_and_flags(
        callback: EffectFn,
        _parent: Option<EffectId>,
        skippable: bool,
        ui_updates_only: bool,
    ) -> (r: Self)
        ensures
            r@ == EffectModel::fresh(Some(callback), skippable, ui_updates_only),
    {
        proof {
            lemma_flags();
        }
        let mut flags: u8 = 0;
        if skippable {
            flags = flags + FLAG_SKIPPABLE;
        }
        if ui_updates_only {
            flags = flags + FLAG_UI_UPDATES_ONLY;
        }
        EffectMetadata {
            state: ReactiveState::Clean,
            flags,
            callback: Some(callback),
            signals: Vec::new(),
        }
    }

    /// As `new_with_callback_parent_and_flags`, told of all changes.
    pub fn new_with_callback_parent_and_skippable(
        callback: EffectFn,
        parent: Option<EffectId>,
        skippable: bool,
    ) -> (r: Self)
        ensures
            r@ == EffectModel::fresh(Some(callback), skippable, false),
    {
        Self::new_with_callback_parent_and_flags(callback, parent, skippable, false)
    }

    /// The reactive state.
    pub fn get_state(&self) -> (r: ReactiveState)
        ensures
            r == self@.state,
    {
        self.state
    }

    /// Whether this effect can be deferred under load.
    pub fn is_skippable(&self) -> (r: bool)
        ensures
            r == self@.skippable,
    {
        (self.flags & FLAG_SKIPPABLE) != 0
    }

    /// Whether this effect is not told of changes from the UI.
    pub fn is_ui_updates_only(&self) -> (r: bool)
        ensures
            r == self@.ui_only,
    {
        (self.flags & FLAG_UI_UPDATES_ONLY) != 0
    }

    /// Set the reactive state.
    pub fn set_state(&mut self, state: ReactiveState)
        ensures
            final(self)@ == (EffectModel { state, ..old(self)@ }),
    {
        self.state = state;
    }

    /// Set the reactive state, and return what it was.
    pub fn replace_state(&mut self, state: ReactiveState) -> (r: ReactiveState)
        ensures
            r == old(self)@.state,
            final(self)@ == (EffectModel { state, ..old(self)@ }),
    {
        let before = self.state;
        self.state = state;
        before
    }

    /// Upgrade the state (Clean -> Check -> Dirty), never downgrade it. Whether it
    /// was upgraded.
    pub fn upgrade_state(&mut self, new_state: ReactiveState) -> (r: bool)
        ensures
            r == (model::graph::rank(old(self)@.state) < model::graph::rank(new_state)),
            final(self)@ == (if r {
                EffectModel { state: new_state, ..old(self)@ }
            } else {
                old(self)@
            }),
    {
        if self.state.below(new_state) {
            self.state = new_state;
            true
        } else {
            false
        }
    }

    /// Whether the state is not Clean.
    pub fn needs_work(&self) -> (r: bool)
        ensures
            r == (self@.state !is Clean),
    {
        self.state != ReactiveState::Clean
    }

    /// Note that the effect reads a signal.
    pub fn add_source(&mut self, source_id: SignalId)
        ensures
            final(self)@ == (EffectModel {
                signals: model::link_source(old(self)@.signals, source_id),
                ..old(self)@
            }),
    {
        lists::link_source(&mut self.signals, source_id);
    }

    /// Note that the effect does not read a signal.
    pub fn remove_source(&mut self, source_id: SignalId)
        ensures
            final(self)@ == (EffectModel {
                signals: model::unlink_source(old(self)@.signals, source_id),
                ..old(self)@
            }),
    {
        lists::unlink_source(&mut self.signals, source_id);
    }

    /// Whether the effect reads a signal.
    pub fn has_source(&self, signal_id: SignalId) -> (r: bool)
        ensures
            r == model::reads(self@.signals, signal_id),
    {
        lists::reads(&self.signals, signal_id)
    }

    /// Call a function with an iterator over the signals the effect reads.
    pub fn with_sources<F, R>(&self, f: F) -> (r: R) where F: FnOnce(SourcesIter<'_>) -> R
        requires
            forall|it: SourcesIter<'_>|
                it@ == model::sources_of(self@.signals) ==> #[trigger] f.requires((it,)),
        ensures
            exists|it: SourcesIter<'_>|
                it@ == model::sources_of(self@.signals) && #[trigger] f.ensures((it,), r),
    {
        let it = SourcesIter { links: &self.signals, done: 0 };
        proof {
            assert(links_from(self.signals@, 0) =~= self.signals@);
        }
        f(it)
    }

    /// Note that the effect reads nothing.
    pub fn clear_sources(&mut self)
        ensures
            final(self)@ == (EffectModel {
                signals: model::unlink_sources(old(self)@.signals),
                ..old(self)@
            }),
    {
        lists::unlink_sources(&mut self.signals);
    }

    /// Run the callback, if there is one: it is left as a call of it leaves it. Nothing
    /// else of the metadata changes.
    pub fn run_callback(&mut self)
        ensures
            final(self)@ == (EffectModel { callback: final(self)@.callback, ..old(self)@ }),
            match old(self)@.callback {
                Some(f) => exists|m: &mut Box<dyn Callback>|
                    {
                        &&& *m == f.body
                        &&& #[trigger] call_ensures(call_boxed::<dyn Callback>, (m,), ())
                        &&& final(self)@.callback is Some
                        &&& *final(m) == final(self)@.callback->0.body
                    },
                None => final(self)@.callback is None,
            },
    {
        if let Some(f) = &mut self.callback {
            call_boxed(&mut f.body);
        }
    }

    /// Whether there is a callback.
    pub fn has_callback(&self) -> (r: bool)
        ensures
            r == self@.callback is Some,
    {
        self.callback.is_some()
    }

    /// Note that the effect writes a signal.
    pub fn add_output(&mut self, signal_id: SignalId)
        ensures
            final(self)@ == (EffectModel {
                signals: model::link_output(old(self)@.signals, signal_id, false),
                ..old(self)@
            }),
    {
        lists::link_output(&mut self.signals, signal_id, false);
    }

    /// Note that the effect is the one that computes the value behind a signal, unless it
    /// is related to that signal already.
    pub fn set_own_signal(&mut self, signal_id: SignalId)
        ensures
            final(self)@ == (EffectModel {
                signals: model::link_own(old(self)@.signals, signal_id),
                ..old(self)@
            }),
    {
        lists::link_own(&mut self.signals, signal_id);
    }

    /// Call a function with an iterator over the signals the effect writes.
    pub fn with_outputs<F, R>(&self, f: F) -> (r: R) where F: FnOnce(OutputsIter<'_>) -> R
        requires
            forall|it: OutputsIter<'_>|
                it@ == model::outputs_of(self@.signals) ==> #[trigger] f.requires((it,)),
        ensures
            exists|it: OutputsIter<'_>|
                it@ == model::outputs_of(self@.signals) && #[trigger] f.ensures((it,), r),
    {
        let it = OutputsIter { links: &self.signals, done: 0 };
        proof {
            assert(links_from(self.signals@, 0) =~= self.signals@);
        }
        f(it)
    }

    /// Note that the effect reads and writes nothing; what it read, and what it wrote.
    pub fn clear_signals(&mut self) -> (r: (Vec<SignalId>, Vec<SignalId>))
        ensures
            r.0@ == model::sources_of(old(self)@.signals),
            r.1@ == model::outputs_of(old(self)@.signals),
            final(self)@ == (EffectModel { signals: Seq::empty(), ..old(self)@ }),
    {
        let r = lists::split(&self.signals);
        self.signals = Vec::new();
        r
    }
}

impl Default for EffectMetadata {
    fn default() -> (r: Self)
        ensures
            r@ == EffectModel::fresh(None, false, false),
    {
        Self::new()
    }
}

// ---------------------------------------------------------------------------
// Access through an identifier
// ---------------------------------------------------------------------------

impl EffectId {
    /// The identifier of the first effect in a slot.
    pub fn new(index: u32) -> (r: Self)
        ensures
            r == EffectId(index, 0),
    {
        EffectId(index, 0)
    }

    /// The index of the arena slot.
    pub fn index(self) -> (r: usize)
        ensures
            r == self.0,
    {
        self.0 as usize
    }

    /// The metadata of the effect.
    pub(crate) fn get(self, rt: &Runtime) -> (r: Option<&EffectMetadata>)
        ensures
            match r {
                Some(m) => rt@.has_effect(self) && rt@.effect(self) == m@,
                None => !rt@.has_effect(self),
            },
    {
        if generations::at(&rt.effect_gens, self.index()) == self.1 {
            store::effect_get(&rt.effects, self.index())
        } else {
            None
        }
    }

    /// The metadata of the effect, to be changed in place.
    pub(crate) fn get_mut(self, rt: &mut Runtime) -> (r: Option<&mut EffectMetadata>)
        ensures
            match r {
                Some(m) => {
                    &&& old(rt)@.has_effect(self)
                    &&& old(rt)@.effect(self) == m@
                    &&& final(rt)@ == old(rt)@.put_effect(self, final(m)@)
                },
                None => !old(rt)@.has_effect(self) && final(rt)@ == old(rt)@,
            },
    {
        if generations::at(&rt.effect_gens, self.index()) == self.1 {
            store::effect_get_mut(&mut rt.effects, self.index())
        } else {
            None
        }
    }

    /// Call a function with the metadata of the effect. `None` if the effect is stale.
    pub fn with<F, R>(self, rt: &Runtime, f: F) -> (r: Option<R>) where
        F: FnOnce(&EffectMetadata) -> R,

        requires
            forall|m: EffectMetadata|
                rt@.has_effect(self) && m@ == rt@.effect(self) ==> #[trigger] f.requires((&m,)),
        ensures
            r is Some <==> rt@.has_effect(self),
            r is Some ==> exists|m: EffectMetadata, x: R|
                r == Some(x) && m@ == rt@.effect(self) && #[trigger] f.ensures((&m,), x),
    {
        match self.get(rt) {
            Some(m) => {
                let out = f(m);
                proof {
                    assert(f.ensures((m,), out));
                }
                Some(out)
            },
            None => None,
        }
    }

    /// Call a function with an iterator over the signals the effect reads. `None` if
    /// the effect is stale.
    pub fn with_sources<F, R>(self, rt: &Runtime, f: F) -> (r: Option<R>) where
        F: FnOnce(SourcesIter<'_>) -> R,

        requires
            forall|it: SourcesIter<'_>|
                rt@.has_effect(self) && it@ == rt@.sources(self) ==> #[trigger] f.requires((it,)),
        ensures
            r is Some <==> rt@.has_effect(self),
            r is Some ==> exists|it: SourcesIter<'_>, x: R|
                r == Some(x) && it@ == rt@.sources(self) && #[trigger] f.ensures((it,), x),
    {
        match self.get(rt) {
            Some(m) => Some(m.with_sources(f)),
            None => None,
        }
    }

    /// Call a function with an iterator over the signals the effect writes. `None` if
    /// the effect is stale.
    pub fn with_outputs<F, R>(self, rt: &Runtime, f: F) -> (r: Option<R>) where
        F: FnOnce(OutputsIter<'_>) -> R,

        requires
            forall|it: OutputsIter<'_>|
                rt@.has_effect(self) && it@ == rt@.outputs(self) ==> #[trigger] f.requires((it,)),
        ensures
            r is Some <==> rt@.has_effect(self),
            r is Some ==> exists|it: OutputsIter<'_>, x: R|
                r == Some(x) && it@ == rt@.outputs(self) && #[trigger] f.ensures((it,), x),
    {
        match self.get(rt) {
            Some(m) => Some(m.with_outputs(f)),
            None => None,
        }
    }

    /// The signals the effect reads, and those it writes.
    pub(crate) fn signals(self, rt: &Runtime) -> (r: (Vec<SignalId>, Vec<SignalId>))
        ensures
            r.0@ == rt@.sources(self),
            r.1@ == rt@.outputs(self),
    {
        match self.get(rt) {
            Some(m) => lists::split(&m.signals),
            None => {
                proof {
                    lists::lemma_no_links();
                }
                (Vec::new(), Vec::new())
            },
        }
    }

    /// Note that the effect reads a signal. `None` if the effect is stale.
    pub fn add_source(self, rt: &mut Runtime, source: SignalId) -> (r: Option<()>)
        ensures
            r is Some <==> old(rt)@.has_effect(self),
            final(rt)@ == old(rt)@.add_source(self, source),
    {
        match self.get_mut(rt) {
            Some(m) => {
                m.add_source(source);
                Some(())
            },
            None => None,
        }
    }

    /// Note that the effect reads nothing. `None` if the effect is stale.
    pub fn clear_sources(self, rt: &mut Runtime) -> (r: Option<()>)
        ensures
            r is Some <==> old(rt)@.has_effect(self),
            final(rt)@ == old(rt)@.clear_sources(self),
    {
        match self.get_mut(rt) {
            Some(m) => {
                m.clear_sources();
                Some(())
            },
            None => None,
        }
    }

    /// Note that the effect does not read a signal. `None` if the effect is stale.
    pub fn remove_source(self, rt: &mut Runtime, source: SignalId) -> (r: Option<()>)
        ensures
            r is Some <==> old(rt)@.has_effect(self),
            final(rt)@ == old(rt)@.remove_source(self, source),
    {
        match self.get_mut(rt) {
            Some(m) => {
                m.remove_source(source);
                Some(())
            },
            None => None,
        }
    }

    /// Whether the effect reads a signal; a stale effect does not.
    pub fn has_source(self, rt: &Runtime, signal_id: SignalId) -> (r: bool)
        ensures
            r == rt@.has_source(self, signal_id),
    {
        match self.get(rt) {
            Some(m) => m.has_source(signal_id),
            None => false,
        }
    }

    /// The reactive state; Clean if the effect is stale.
    pub fn state(self, rt: &Runtime) -> (r: ReactiveState)
        ensures
            r == rt@.state_of(self),
    {
        match self.get(rt) {
            Some(m) => m.get_state(),
            None => ReactiveState::Clean,
        }
    }

    /// Set the reactive state.
    pub fn set_state(self, rt: &mut Runtime, state: ReactiveState)
        ensures
            final(rt)@ == old(rt)@.set_state(self, state),
    {
        if let Some(m) = self.get_mut(rt) {
            m.set_state(state);
        }
    }

    /// Upgrade the state (Clean -> Check -> Dirty), never downgrade it. Whether it
    /// was upgraded.
    pub fn upgrade_state(self, rt: &mut Runtime, new_state: ReactiveState) -> (r: bool)
        ensures
            r == old(rt)@.upgrades(self, new_state),
            final(rt)@ == old(rt)@.upgrade_state(self, new_state),
    {
        match self.get_mut(rt) {
            Some(m) => m.upgrade_state(new_state),
            None => false,
        }
    }

    /// Whether the state is not Clean.
    pub fn needs_work(self, rt: &Runtime) -> (r: bool)
        ensures
            r == (rt@.state_of(self) !is Clean),
    {
        self.state(rt) != ReactiveState::Clean
    }

    /// Whether the callback of the effect is in the arena.
    pub fn has_callback(self, rt: &Runtime) -> (r: bool)
        ensures
            r == rt@.has_callback(self),
    {
        match self.get(rt) {
            Some(m) => m.has_callback(),
            None => false,
        }
    }

    /// Take the callback out of the arena.
    pub(crate) fn take_callback(self, rt: &mut Runtime) -> (r: Option<EffectFn>)
        ensures
            r == (if old(rt)@.has_effect(self) {
                old(rt)@.effect(self).callback
            } else {
                None
            }),
            final(rt)@ == old(rt)@.put_callback(self, None),
    {
        match self.get_mut(rt) {
            Some(m) => m.callback.take(),
            None => None,
        }
    }

    /// Put a callback into the arena, if the effect is not stale.
    pub(crate) fn put_callback(self, rt: &mut Runtime, callback: EffectFn)
        ensures
            final(rt)@ == old(rt)@.put_callback(self, Some(callback)),
    {
        if let Some(m) = self.get_mut(rt) {
            m.callback = Some(callback);
        }
    }

    /// The parent of the effect, if it has one.
    pub fn parent(self, rt: &Runtime) -> (r: Option<EffectId>)
        ensures
            r == (if rt@.parents.contains_key(self) {
                Some(rt@.parents[self])
            } else {
                None
            }),
    {
        store::link_get(&rt.parents, (self.0, self.1))
    }

    /// Call a function with the children of the effect. `None` if it has no children.
    pub fn with_children<F, R>(self, rt: &Runtime, f: F) -> (r: Option<R>) where
        F: FnOnce(&Vec<EffectId>) -> R,

        requires
            forall|v: Vec<EffectId>|
                v@ == rt@.children_of(self) ==> #[trigger] f.requires((&v,)),
        ensures
            r is Some <==> rt@.children_of(self).len() > 0,
            r is Some ==> exists|v: Vec<EffectId>, x: R|
                r == Some(x) && v@ == rt@.children_of(self) && #[trigger] f.ensures((&v,), x),
    {
        let v = self.children(rt);
        if v.len() > 0 {
            let out = f(&v);
            proof {
                assert(f.ensures((&v,), out));
            }
            Some(out)
        } else {
            None
        }
    }

    /// The children of the effect.
    pub(crate) fn children(self, rt: &Runtime) -> (r: Vec<EffectId>)
        ensures
            r@ == rt@.children_of(self),
    {
        match store::list_get(&rt.children, (self.0, self.1)) {
            Some(v) => v,
            None => Vec::new(),
        }
    }

    /// Add a child, after those that are there.
    pub fn add_child(self, rt: &mut Runtime, child: EffectId)
        ensures
            final(rt)@ == old(rt)@.add_child(self, child),
    {
        let mut v = self.children(rt);
        v.push(child);
        store::list_insert(&mut rt.children, (self.0, self.1), v);
    }

    /// Remove a child.
    pub fn remove_child(self, rt: &mut Runtime, child: EffectId)
        ensures
            final(rt)@ == old(rt)@.remove_child(self, child),
    {
        let v = self.children(rt);
        let rest = lists::without(&v, child);
        if rest.len() == 0 {
            self.clear_children(rt);
        } else {
            store::list_insert(&mut rt.children, (self.0, self.1), rest);
        }
    }

    /// Remove all children, without destroying them.
    pub fn clear_children(self, rt: &mut Runtime)
        ensures
            final(rt)@ == old(rt)@.clear_children(self),
    {
        store::list_remove(&mut rt.children, (self.0, self.1));
    }

    /// Note that the effect writes a signal. `None` if the effect is stale.
    pub fn add_output(self, rt: &mut Runtime, signal_id: SignalId) -> (r: Option<()>)
        ensures
            r is Some <==> old(rt)@.has_effect(self),
            final(rt)@ == old(rt)@.add_output(self, signal_id, false),
    {
        match self.get_mut(rt) {
            Some(m) => {
                m.add_output(signal_id);
                Some(())
            },
            None => None,
        }
    }

    /// Note that the effect reads and writes nothing; what it read, and what it wrote.
    pub fn clear_signals(self, rt: &mut Runtime) -> (r: (Vec<SignalId>, Vec<SignalId>))
        ensures
            r.0@ == old(rt)@.sources(self),
            r.1@ == old(rt)@.outputs(self),
            final(rt)@ == old(rt)@.put_links(self, Seq::empty()),
    {
        match self.get_mut(rt) {
            Some(m) => m.clear_signals(),
            None => {
                proof {
                    lists::lemma_no_links();
                }
                (Vec::new(), Vec::new())
            },
        }
    }

    /// Note that the effect writes a signal, from the UI or not.
    pub(crate) fn add_output_from(self, rt: &mut Runtime, signal_id: SignalId, from_ui: bool)
        ensures
            final(rt)@ == old(rt)@.add_output(self, signal_id, from_ui),
    {
        if let Some(m) = self.get_mut(rt) {
            lists::link_output(&mut m.signals, signal_id, from_ui);
        }
    }

    /// Forget the last run of the effect.
    pub(crate) fn forget_run(self, rt: &mut Runtime)
        ensures
            final(rt)@ == old(rt)@.forget_run(self),
    {
        let (sources, written) = match self.get_mut(rt) {
            Some(m) => lists::forget_run(&mut m.signals),
            None => {
                proof {
                    lists::lemma_no_links();
                }
                (Vec::new(), Vec::new())
            },
        };
        signal_arena::remove_subscriber_of_all(rt, &sources, self);
        signal_arena::remove_writer_of_all(rt, &written, self);
    }

    /// Whether the effect can be deferred under load.
    pub fn is_skippable(self, rt: &Runtime) -> (r: bool)
        ensures
            r == rt@.is_skippable(self),
    {
        match self.get(rt) {
            Some(m) => m.is_skippable(),
            None => false,
        }
    }

    /// Whether the effect is not told of changes from the UI.
    pub fn is_ui_updates_only(self, rt: &Runtime) -> (r: bool)
        ensures
            r == rt@.is_ui_only(self),
    {
        match self.get(rt) {
            Some(m) => m.is_ui_updates_only(),
            None => false,
        }
    }

    /// Unsubscribe the effect from all its sources.
    pub(crate) fn unsubscribe(self, rt: &mut Runtime)
        ensures
            final(rt)@ == old(rt)@.unsubscribe(self),
    {
        let (sources, _) = self.signals(rt);
        signal_arena::remove_subscriber_of_all(rt, &sources, self);
    }

    /// Unregister the effect as a writer of all its outputs.
    pub(crate) fn unregister(self, rt: &mut Runtime)
        ensures
            final(rt)@ == old(rt)@.unregister(self),
    {
        let (_, outputs) = self.signals(rt);
        signal_arena::remove_writer_of_all(rt, &outputs, self);
    }
}

// ---------------------------------------------------------------------------
// The current effect
// ---------------------------------------------------------------------------

/// The effect that runs, if any.
pub fn current_effect(rt: &Runtime) -> (r: Option<EffectId>)
    ensures
        r == rt@.local.current,
{
    rt.local.current
}

/// Set the effect that runs; which it was before.
pub fn set_current_effect(rt: &mut Runtime, effect_id: Option<EffectId>) -> (r: Option<EffectId>)
    ensures
        r == old(rt)@.local.current,
        final(rt)@ == old(rt)@.with_current(effect_id),
{
    let previous = rt.local.current;
    rt.local.current = effect_id;
    previous
}

/// What is to be the current effect again once another has run.
pub struct CurrentEffectGuard {
    /// The current effect before.
    pub previous: Option<EffectId>,
}

impl CurrentEffectGuard {
    /// Set the current effect, and remember which it was.
    pub fn new(rt: &mut Runtime, new_value: Option<EffectId>) -> (r: Self)
        ensures
            r.previous == old(rt)@.local.current,
            final(rt)@ == old(rt)@.with_current(new_value),
    {
        let previous = set_current_effect(rt, new_value);
        CurrentEffectGuard { previous }
    }

    /// The current effect is again the one that was remembered.
    pub fn restore(self, rt: &mut Runtime)
        ensures
            final(rt)@ == old(rt)@.with_current(self.previous),
    {
        set_current_effect(rt, self.previous);
    }
}

// ---------------------------------------------------------------------------
// The arena, the pending set and the hierarchy
// ---------------------------------------------------------------------------

/// Insert effect metadata into the arena and return its identifier: the number of a
/// vacant slot as a `u32`, and how many nodes that slot has held before.
pub fn effect_arena_insert(rt: &mut Runtime, metadata: EffectMetadata) -> (r: EffectId)
    ensures
        exists|key: usize|
            #![trigger old(rt)@.vacant_effect(key as nat)]
            old(rt)@.vacant_effect(key as nat) && r == old(rt)@.effect_at(key as u32)
                && final(rt)@ == old(rt)@.insert_effect(key as nat, metadata@),
{
    let key = store::effect_insert(&mut rt.effects, metadata);
    proof {
        assert(old(rt)@.vacant_effect(key as nat));
    }
    let slot: u32 = #[verifier::truncate]
    (key as u32);
    EffectId(slot, generations::at(&rt.effect_gens, slot as usize))
}

/// Set the parent of an effect.
pub fn set_effect_parent(rt: &mut Runtime, effect_id: EffectId, parent_id: EffectId)
    ensures
        final(rt)@ == old(rt)@.set_parent(effect_id, parent_id),
{
    store::link_insert(&mut rt.parents, (effect_id.0, effect_id.1), parent_id);
}

/// Remove an effect from the arena, and what is noted of its parent and children;
/// what the arena held, if anything.
pub fn effect_arena_remove(rt: &mut Runtime, id: EffectId) -> (r: Option<EffectMetadata>)
    ensures
        r is Some <==> old(rt)@.has_effect(id),
        r is Some ==> r->0@ == old(rt)@.effect(id),
        final(rt)@ == old(rt)@.remove_effect(id),
{
    store::link_remove(&mut rt.parents, (id.0, id.1));
    store::list_remove(&mut rt.children, (id.0, id.1));
    if generations::at(&rt.effect_gens, id.index()) == id.1 && store::effect_contains(
        &rt.effects,
        id.index(),
    ) {
        generations::bump(&mut rt.effect_gens, id.index());
        Some(store::effect_remove(&mut rt.effects, id.index()))
    } else {
        None
    }
}

/// The effects with the given slots and generations.
fn to_ids(v: Vec<(u32, u64)>) -> (r: Vec<EffectId>)
    ensures
        r@ == v@.map_values(runtime::effect_of()),
{
    let mut out: Vec<EffectId> = Vec::new();
    let mut i: usize = 0;
    while i < v.len()
        invariant
            i <= v.len(),
            out@ == v@.take(i as int).map_values(runtime::effect_of()),
        decreases v.len() - i,
    {
        out.push(EffectId(v[i].0, v[i].1));
        i = i + 1;
        proof {
            assert(v@.take(i as int).map_values(runtime::effect_of()) =~= v@.take(
                i - 1,
            ).map_values(runtime::effect_of()).push(EffectId(v@[i - 1].0, v@[i - 1].1)));
        }
    }
    proof {
        assert(v@.take(i as int) =~= v@);
    }
    out
}

/// Take all pending effects.
pub fn take_pending_effects(rt: &mut Runtime) -> (r: Vec<EffectId>)
    ensures
        r@ == old(rt)@.pending,
        final(rt)@ == old(rt)@.pending_clear(),
{
    to_ids(store::set_drain(&mut rt.pending))
}

/// Note that an effect is pending.
fn pending_insert(rt: &mut Runtime, effect_id: EffectId)
    ensures
        final(rt)@ == old(rt)@.pending_insert(effect_id),
{
    proof {
        facts::lemma_effects_of(store::set_members(rt.pending), (effect_id.0, effect_id.1));
    }
    store::set_insert(&mut rt.pending, (effect_id.0, effect_id.1));
}

/// Note that an effect is not pending.
pub fn remove_from_pending_set(rt: &mut Runtime, effect_id: EffectId)
    ensures
        final(rt)@ == old(rt)@.pending_remove(effect_id),
{
    proof {
        facts::lemma_effects_of(store::set_members(rt.pending), (effect_id.0, effect_id.1));
    }
    store::set_swap_remove(&mut rt.pending, (effect_id.0, effect_id.1));
}

/// Take all pending effects, those that can be deferred apart from those that
/// must run; each goes to the end of its list.
pub fn take_pending_effects_split(
    rt: &mut Runtime,
    must_run: &mut Vec<EffectId>,
    skippable: &mut Vec<EffectId>,
)
    ensures
        final(must_run)@ == old(must_run)@ + old(rt)@.pending_split().0,
        final(skippable)@ == old(skippable)@ + old(rt)@.pending_split().1,
        final(rt)@ == old(rt)@.pending_clear(),
{
    let ids = take_pending_effects(rt);
    let ghost must = |e: EffectId| !old(rt)@.is_skippable(e);
    let ghost can_skip = |e: EffectId| old(rt)@.is_skippable(e);
    let mut i: usize = 0;
    proof {
        reveal(Seq::filter);
        assert(old(must_run)@ + ids@.take(0).filter(must) =~= must_run@);
        assert(old(skippable)@ + ids@.take(0).filter(can_skip) =~= skippable@);
    }
    while i < ids.len()
        invariant
            i <= ids.len(),
            rt@ == old(rt)@.pending_clear(),
            must == (|e: EffectId| !old(rt)@.is_skippable(e)),
            can_skip == (|e: EffectId| old(rt)@.is_skippable(e)),
            must_run@ == old(must_run)@ + ids@.take(i as int).filter(must),
            skippable@ == old(skippable)@ + ids@.take(i as int).filter(can_skip),
        decreases ids.len() - i,
    {
        let e = ids[i];
        proof {
            assert(ids@.take(i + 1) =~= ids@.take(i as int).push(e));
            lists::lemma_filter_push(ids@.take(i as int), e, must);
            lists::lemma_filter_push(ids@.take(i as int), e, can_skip);
            assert(rt@.is_skippable(e) == old(rt)@.is_skippable(e));
        }
        if e.is_skippable(rt) {
            skippable.push(e);
        } else {
            must_run.push(e);
        }
        i = i + 1;
    }
    proof {
        assert(ids@.take(i as int) =~= ids@);
    }
}

// ---------------------------------------------------------------------------
// Destruction of children
// ---------------------------------------------------------------------------

/// Take the tree under an effect out of the map of children: its effects, children
/// before parents, are put at the end of `out`.
fn take_tree(rt: &mut Runtime, effect_id: EffectId, out: &mut Vec<EffectId>)
    ensures
        final(rt)@ == (State {
            children: spread::take_tree(old(rt)@.children, effect_id).0,
            ..old(rt)@
        }),
        final(out)@ == old(out)@ + spread::take_tree(old(rt)@.children, effect_id).1,
    decreases old(rt)@.children.dom().len(),
{
    let list: Vec<EffectId> = match store::list_get(&rt.children, (effect_id.0, effect_id.1)) {
        Some(list) => list,
        None => {
            proof {
                assert(old(out)@ + Seq::empty() =~= old(out)@);
            }
            return ;
        },
    };
    store::list_remove(&mut rt.children, (effect_id.0, effect_id.1));
    let ghost whole = spread::take_trees(rt@.children, list@);
    proof {
        assert(rt@.children =~= old(rt)@.children.remove(effect_id));
        assert(old(rt)@.children[effect_id] == list@);
        spread::lemma_effects_finite(old(rt)@.children.dom());
        assert(list@.skip(0) =~= list@);
        assert(out@ + whole.1 =~= old(out)@ + whole.1);
    }
    let mut i: usize = 0;
    while i < list.len()
        invariant
            i <= list.len(),
            rt@ == (State { children: rt@.children, ..old(rt)@ }),
            rt@.children.dom().len() < old(rt)@.children.dom().len(),
            whole.0 == spread::take_trees(rt@.children, list@.skip(i as int)).0,
            old(out)@ + whole.1 == out@ + spread::take_trees(
                rt@.children,
                list@.skip(i as int),
            ).1,
        decreases list.len() - i,
    {
        let child = list[i];
        let ghost before = out@;
        let ghost rest = list@.skip(i as int);
        let ghost c = rt@.children;
        let ghost under = spread::take_tree(c, child).1;
        proof {
            facts::lemma_take_tree_shrinks(c, child);
            assert(rest.drop_first() =~= list@.skip(i + 1));
        }
        take_tree(rt, child, out);
        out.push(child);
        proof {
            let tail = spread::take_trees(rt@.children, list@.skip(i + 1)).1;
            assert(out@ + tail =~= before + (under.push(child) + tail));
        }
        i = i + 1;
    }
    proof {
        assert(list@.skip(i as int) =~= Seq::empty());
        assert(out@ + Seq::empty() =~= out@);
    }
}

/// Destroy all effects under an effect: each is removed from the pending set, from
/// the subscribers of its sources, from the writers of its outputs and from the arena,
/// children before parents.
pub fn destroy_children(rt: &mut Runtime, effect_id: EffectId)
    ensures
        final(rt)@ == old(rt)@.destroy_children(effect_id),
{
    let mut list: Vec<EffectId> = Vec::new();
    take_tree(rt, effect_id, &mut list);
    let ghost start = rt@;
    proof {
        assert(list@ =~= old(rt)@.descendants(effect_id));
        assert(list@.skip(0) =~= list@);
    }
    let mut i: usize = 0;
    while i < list.len()
        invariant
            i <= list.len(),
            rt@.destroy_list(list@.skip(i as int)) == start.destroy_list(list@),
        decreases list.len() - i,
    {
        let child = list[i];
        proof {
            assert(list@.skip(i as int).drop_first() =~= list@.skip(i + 1));
        }
        remove_from_pending_set(rt, child);
        child.unsubscribe(rt);
        child.unregister(rt);
        effect_arena_remove(rt, child);
        i = i + 1;
    }
}

// ---------------------------------------------------------------------------
// Marking
// ---------------------------------------------------------------------------

/// Mark an effect Dirty and pending, and destroy its children. Whether it was live
/// and not Dirty: otherwise nothing is done.
pub fn mark_effect_pending(rt: &mut Runtime, effect_id: EffectId) -> (r: bool)
    ensures
        r == old(rt)@.can_mark(effect_id),
        final(rt)@ == old(rt)@.mark_pending(effect_id),
{
    let was_not_dirty = match effect_id.get_mut(rt) {
        Some(m) => m.replace_state(ReactiveState::Dirty) != ReactiveState::Dirty,
        None => false,
    };
    if was_not_dirty {
        destroy_children(rt, effect_id);
        pending_insert(rt, effect_id);
    }
    was_not_dirty
}

/// Put an effect in state Check into the pending set.
pub fn mark_effect_pending_for_check(rt: &mut Runtime, effect_id: EffectId)
    ensures
        final(rt)@ == old(rt)@.pending_insert(effect_id),
{
    pending_insert(rt, effect_id);
}

/// Mark an effect Dirty and pending, and destroy its children, unless it is Dirty
/// already. Whether it was Clean.
pub fn mark_effect_dirty(rt: &mut Runtime, effect_id: EffectId) -> (r: bool)
    ensures
        r == old(rt)@.state_of(effect_id) is Clean,
        final(rt)@ == old(rt)@.mark_dirty(effect_id),
{
    let state = effect_id.state(rt);
    if state != ReactiveState::Dirty {
        effect_id.set_state(rt, ReactiveState::Dirty);
        destroy_children(rt, effect_id);
        pending_insert(rt, effect_id);
    }
    state == ReactiveState::Clean
}

impl EffectId {
    /// Mark this effect and all that depend on it Check, as far as they are Clean.
    ///
    /// An effect that is Check or Dirty already is left as it is, and so is what
    /// depends on it.
    pub fn mark_check_recursive(self, rt: &mut Runtime)
        ensures
            final(rt)@ == old(rt)@.check_effect(self),
        decreases spread::clean_count(old(rt)@.effects), 0nat,
    {
        if self.state(rt) == ReactiveState::Clean {
            proof {
                if rt@.has_effect(self) {
                    spread::lemma_clean_count_update(
                        rt@.effects,
                        self.0 as int,
                        Some(EffectModel { state: ReactiveState::Check, ..rt@.effect(self) }),
                    );
                }
            }
            self.set_state(rt, ReactiveState::Check);
            mark_effect_pending_for_check(rt, self);
            proof {
                facts::lemma_same_successors(old(rt)@, rt@, self);
            }
            if self.get(rt).is_some() {
                signal_arena::mark_successors_check(rt, self);
            }
        }
    }

    /// Mark this effect Dirty.
    pub fn mark_dirty(self, rt: &mut Runtime)
        ensures
            final(rt)@ == old(rt)@.mark_dirty(self),
    {
        mark_effect_dirty(rt, self);
    }
}

} // verus!
