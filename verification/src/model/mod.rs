//! The mathematical model of the runtime.
//!
//! A [`State`] is what a [`Runtime`](crate::runtime::Runtime) stands for: its two
//! arenas as sequences of slots, its pending set as a sequence without
//! repetitions, its maps as maps, and the state of the running thread. Each
//! operation of the library is a function on states, written here; the
//! contracts of the executable functions say that they compute it.
use vstd::prelude::*;

pub mod facts;
pub mod graph;
pub mod validity;
pub mod lifecycle;
pub mod machine;
pub mod spread;

use crate::arena::effect_arena::EffectFn;
use crate::arena::effect_arena::EffectId;
use crate::arena::effect_arena::ReactiveState;
use crate::arena::effect_arena::SignalRelation;
use crate::arena::signal_arena::SignalId;

verus! {

// ---------------------------------------------------------------------------
// Sequences used as sets
// ---------------------------------------------------------------------------

/// `s` with `x` at its end, unless `x` is in it already.
pub open spec fn insert_once<A>(s: Seq<A>, x: A) -> Seq<A> {
    if s.contains(x) {
        s
    } else {
        s.push(x)
    }
}

/// The test for not being `x`.
pub open spec fn other_than<A>(x: A) -> spec_fn(A) -> bool {
    |y: A| y != x
}

/// `s` without `x`, the order of the others unchanged.
pub open spec fn without<A>(s: Seq<A>, x: A) -> Seq<A> {
    s.filter(other_than(x))
}

/// Where `x` is first in `s`; the length of `s` if it is not in it.
pub open spec fn first_index<A>(s: Seq<A>, x: A) -> int
    decreases s.len(),
{
    if s.len() == 0 || s[0] == x {
        0
    } else {
        1 + first_index(s.drop_first(), x)
    }
}

/// `s` without `x`, whose place the last element has taken.
pub open spec fn swap_removed<A>(s: Seq<A>, x: A) -> Seq<A> {
    if s.contains(x) {
        s.update(first_index(s, x), s.last()).drop_last()
    } else {
        s
    }
}

/// The list stored under `k`, or the empty list.
pub open spec fn list_at<K>(m: Map<K, Seq<EffectId>>, k: K) -> Seq<EffectId> {
    if m.contains_key(k) {
        m[k]
    } else {
        Seq::empty()
    }
}

// ---------------------------------------------------------------------------
// The signals an effect is related to
// ---------------------------------------------------------------------------

/// One signal that an effect reads, writes or both.
pub type Link = (SignalId, SignalRelation);

/// Some link of `links` is to `signal`.
pub open spec fn linked(links: Seq<Link>, signal: SignalId) -> bool {
    exists|i: int| 0 <= i < links.len() && (#[trigger] links[i]).0 == signal
}

/// `links` says that `signal` is read.
pub open spec fn reads(links: Seq<Link>, signal: SignalId) -> bool {
    exists|i: int|
        0 <= i < links.len() && (#[trigger] links[i]).0 == signal && links[i].1.is_source
}

/// The signals that are read, in order.
pub open spec fn sources_of(links: Seq<Link>) -> Seq<SignalId> {
    links.filter(|l: Link| l.1.is_source).map_values(|l: Link| l.0)
}

/// The signals that are written, in order.
pub open spec fn outputs_of(links: Seq<Link>) -> Seq<SignalId> {
    links.filter(|l: Link| l.1.is_output).map_values(|l: Link| l.0)
}

/// The signals that are written by what an effect does, in order: all outputs but the
/// signal of a computed value.
pub open spec fn written_of(links: Seq<Link>) -> Seq<SignalId> {
    links.filter(|l: Link| l.1.is_output && !l.1.is_own).map_values(|l: Link| l.0)
}

/// The link `l`, marked as read if it is to `signal`.
pub open spec fn read_mark(l: Link, signal: SignalId) -> Link {
    if l.0 == signal {
        (l.0, SignalRelation { is_source: true, ..l.1 })
    } else {
        l
    }
}

/// The link `l`, marked as written if it is to `signal`. It counts as written from the
/// UI as long as all writes come from there.
pub open spec fn write_mark(l: Link, signal: SignalId, from_ui: bool) -> Link {
    if l.0 == signal {
        (
            l.0,
            SignalRelation {
                is_output: true,
                from_ui: from_ui && (l.1.from_ui || !l.1.is_output),
                ..l.1
            },
        )
    } else {
        l
    }
}

/// The link `l`, no longer read.
pub open spec fn unread(l: Link) -> Link {
    (l.0, SignalRelation { is_source: false, ..l.1 })
}

/// The link of a computed value to its own signal.
pub open spec fn own_link(signal: SignalId) -> Link {
    (signal, SignalRelation { is_source: false, is_output: true, from_ui: false, is_own: true })
}

/// `links` with the link of a computed value to its own signal, unless there is a link to
/// that signal already.
pub open spec fn link_own(links: Seq<Link>, signal: SignalId) -> Seq<Link> {
    if linked(links, signal) {
        links
    } else {
        links.push(own_link(signal))
    }
}

/// What is left of `links` before a run: the signal of a computed value, if it is one.
pub open spec fn own_links(links: Seq<Link>) -> Seq<Link> {
    links.filter(|l: Link| l.1.is_own).map_values(|l: Link| unread(l))
}

/// `links` once `signal` is read.
pub open spec fn link_source(links: Seq<Link>, signal: SignalId) -> Seq<Link> {
    if linked(links, signal) {
        links.map_values(|l: Link| read_mark(l, signal))
    } else {
        links.push(
            (
                signal,
                SignalRelation {
                    is_source: true,
                    is_output: false,
                    from_ui: false,
                    is_own: false,
                },
            ),
        )
    }
}

/// `links` once `signal` is written, from the UI or not.
pub open spec fn link_output(links: Seq<Link>, signal: SignalId, from_ui: bool) -> Seq<Link> {
    if linked(links, signal) {
        links.map_values(|l: Link| write_mark(l, signal, from_ui))
    } else {
        links.push(
            (
                signal,
                SignalRelation { is_source: false, is_output: true, from_ui, is_own: false },
            ),
        )
    }
}

/// The test for a link that is there even if `signal` is not read.
pub open spec fn stays_without(signal: SignalId) -> spec_fn(Link) -> bool {
    |l: Link| l.0 != signal || l.1.is_output
}

/// What becomes of such a link.
pub open spec fn unread_of(signal: SignalId) -> spec_fn(Link) -> Link {
    |l: Link|
        if l.0 == signal {
            unread(l)
        } else {
            l
        }
}

/// `links` once `signal` is read no more: a link that is neither read nor
/// written goes.
pub open spec fn unlink_source(links: Seq<Link>, signal: SignalId) -> Seq<Link> {
    links.filter(stays_without(signal)).map_values(unread_of(signal))
}

/// `links` once nothing is read any more.
pub open spec fn unlink_sources(links: Seq<Link>) -> Seq<Link> {
    links.filter(|l: Link| l.1.is_output).map_values(|l: Link| unread(l))
}

// ---------------------------------------------------------------------------
// The state
// ---------------------------------------------------------------------------

/// What the effect arena holds of one effect.
#[verifier::ext_equal]
pub struct EffectModel {
    /// Clean, Check or Dirty.
    pub state: ReactiveState,
    /// It can be deferred under load.
    pub skippable: bool,
    /// It is not told of changes that come from the UI.
    pub ui_only: bool,
    /// Its function; `None` while that runs, and for a node without one.
    pub callback: Option<EffectFn>,
    /// The signals it reads and writes.
    pub signals: Seq<Link>,
}

/// How an effect comes to run, and so what precedes and follows its callback.
#[derive(Clone, Copy, Debug, PartialEq, Eq, Structural)]
pub enum RunKind {
    /// The callback and nothing else.
    Bare,
    /// The first run of a computed value: the effect is current meanwhile.
    Initial,
    /// The first run of an effect: old subscriptions go, the effect is Clean after it.
    Now,
    /// A run of a stale effect: old sources and outputs go first.
    Single,
    /// As `Single`; then those who read what it wrote are told.
    SingleThenMark,
}

/// One activity that is under way.
#[allow(inconsistent_fields)]
#[verifier::ext_equal]
pub enum FrameModel {
    /// An effect is to be run if that is necessary.
    Update { effect: EffectId, skip: bool },
    /// An effect is to be run.
    Start { effect: EffectId, kind: RunKind },
    /// The callback of an effect runs; `previous` was the current effect before.
    Running { effect: EffectId, previous: Option<EffectId>, kind: RunKind },
    /// The sources of an effect in state Check are pulled, one by one.
    Verify { effect: EffectId, sources: Seq<SignalId>, next: nat, skip: bool },
    /// The writers of a signal are updated, one by one.
    Pull { writers: Seq<EffectId>, next: nat, current: Option<EffectId>, skip: bool },
    /// An effect is to be subscribed to a signal.
    Track { signal: SignalId, effect: Option<EffectId> },
    /// The pending effects are processed until none is left.
    Flush { ids: Seq<EffectId>, next: nat, total: usize },
    /// The pending effects are processed within a time budget of `limit`
    /// nanoseconds; `over` is `None` while the skippable ones are at it.
    Budget {
        must_run: Seq<EffectId>,
        skippable: Seq<EffectId>,
        next: nat,
        limit: u128,
        over: Option<bool>,
    },
    /// Effect processing is to be scheduled.
    Schedule,
}

/// What a thread has of its own.
#[verifier::ext_equal]
pub struct LocalModel {
    /// The effect whose callback runs, if dependencies are tracked.
    pub current: Option<EffectId>,
    /// Effect processing has been scheduled.
    pub scheduled: bool,
    /// How many transactions are open.
    pub depth: nat,
    /// UI updates are suppressed.
    pub suppress: bool,
    /// The activities under way, the innermost last.
    pub frames: Seq<FrameModel>,
    /// How many effects the last completed flush has processed.
    pub processed: usize,
    /// The last completed update has run its effect.
    pub updated: bool,
    /// The two lists of the last completed flush with a budget.
    pub budget: Option<(Seq<EffectId>, Seq<EffectId>)>,
    /// The last effect seen to read and write the same signal.
    pub warning: Option<(EffectId, SignalId)>,
}

/// The whole runtime, as seen by the thread that uses it.
#[verifier::ext_equal]
pub struct State {
    /// The signal arena: of each live signal, its subscribers.
    pub signals: Seq<Option<Seq<EffectId>>>,
    /// How many signals each slot of the signal arena has held before; 0 where there is
    /// no entry.
    pub signal_gens: Seq<u64>,
    /// The effect arena.
    pub effects: Seq<Option<EffectModel>>,
    /// How many effects each slot of the effect arena has held before; 0 where there is
    /// no entry.
    pub effect_gens: Seq<u64>,
    /// The effects that wait to be processed.
    pub pending: Seq<EffectId>,
    /// The parent of an effect.
    pub parents: Map<EffectId, EffectId>,
    /// The children of an effect.
    pub children: Map<EffectId, Seq<EffectId>>,
    /// The effects that write to a signal.
    pub writers: Map<SignalId, Seq<EffectId>>,
    /// How many threads are in a transaction.
    pub active: nat,
    /// An effect loop is there to be notified.
    pub attached: bool,
    /// The effect loop is to be notified.
    pub notice: bool,
    /// What the running thread has of its own.
    pub local: LocalModel,
}

} // verus!
