//! The activities: what a step does, when callbacks run, how flushes end.
use vstd::prelude::*;

use crate::arena::effect_arena::EffectFn;
use crate::arena::effect_arena::EffectId;
use crate::arena::effect_arena::ReactiveState;
use crate::arena::signal_arena::SignalId;
use crate::laws::links;
use crate::laws::push;
use crate::laws::tree;
use crate::laws::valid;
use crate::lists;
use crate::model;
use crate::model::facts;
use crate::model::graph;
use crate::model::machine;
use crate::model::EffectModel;
use crate::model::FrameModel;
use crate::model::RunKind;
use crate::model::State;
use crate::runtime::Action;

verus! {

// ---------------------------------------------------------------------------
// The stack
// ---------------------------------------------------------------------------

/// What precedes and follows a callback touches no activity.
proof fn lemma_run_frames(s: State, e: EffectId, kind: RunKind)
    ensures
        s.prepare_run(e, kind).local.frames == s.local.frames,
        s.conclude_run(e, kind).local.frames == s.local.frames,
        s.skip_run(e, kind).local.frames == s.local.frames,
{
    facts::lemma_notify_rest(s, s.told_after(e), false);
    match kind {
        RunKind::Bare => {},
        RunKind::Initial => {},
        RunKind::Now => {},
        RunKind::Single => {},
        RunKind::SingleThenMark => {},
    }
}

/// The beginning of a run adds at most one activity.
pub proof fn lemma_begin_run_frames(s: State, e: EffectId, kind: RunKind)
    ensures
        s.calls(e, kind) ==> s.begin_run(e, kind).0.local.frames == s.local.frames.push(
            FrameModel::Running { effect: e, previous: s.local.current, kind },
        ) && s.begin_run(e, kind).1 is Run,
        !s.calls(e, kind) ==> s.begin_run(e, kind).0.local.frames == s.local.frames && s.begin_run(
            e,
            kind,
        ).1 is Continue,
{
    let ready = s.prepare_run(e, kind);
    lemma_run_frames(s, e, kind);
    lemma_run_frames(ready.with_current(s.local.current), e, kind);
}

/// `t` is `rest` with nothing, one or two activities more.
pub open spec fn extends(rest: Seq<FrameModel>, t: Seq<FrameModel>) -> bool {
    ||| t == rest
    ||| exists|a: FrameModel| t == #[trigger] rest.push(a)
    ||| exists|a: FrameModel, b: FrameModel| t == #[trigger] rest.push(a).push(b)
}

/// A step of an activity takes it off the stack and puts at most two there.
#[verifier::spinoff_prover]
pub proof fn lemma_step_extends(s: State)
    requires
        s.local.frames.len() > 0,
    ensures
        extends(s.local.frames.drop_last(), s.step().0.local.frames),
{
    let rest = s.local.frames.drop_last();
    let p = s.pop_frame();
    let t = s.step().0;
    match s.local.frames.last() {
        FrameModel::Update { effect, skip } => {
            lemma_begin_run_frames(p, effect, RunKind::SingleThenMark);
        },
        FrameModel::Start { effect, kind } => {
            lemma_begin_run_frames(p, effect, kind);
        },
        FrameModel::Running { .. } => {
            assert(s.local.frames =~= rest.push(s.local.frames.last()));
        },
        FrameModel::Verify { effect, sources, next, skip } => {
            lemma_begin_run_frames(p, effect, RunKind::SingleThenMark);
        },
        FrameModel::Pull { writers, next, current, skip } => {},
        FrameModel::Track { signal, effect } => {
            assert(t.local.frames == rest);
        },
        FrameModel::Flush { ids, next, total } => {},
        FrameModel::Budget { must_run, skippable, next, limit, over } => {
            if over is None {
                assert(s.local.frames =~= rest.push(s.local.frames.last()));
            }
        },
        FrameModel::Schedule => {},
    }
}

/// A step works on the innermost activity: it may end it or begin others inside it,
/// and leaves all that are outside of it as they are.
pub proof fn law_step_works_on_the_innermost(s: State)
    requires
        s.local.frames.len() > 0,
    ensures
        s.step().0.local.frames.len() >= s.local.frames.len() - 1,
        s.step().0.local.frames.take(s.local.frames.len() - 1) == s.local.frames.drop_last(),
{
    lemma_step_extends(s);
    let rest = s.local.frames.drop_last();
    let t = s.step().0.local.frames;
    assert(t.take(rest.len() as int) =~= rest);
}

/// The host is told that nothing is to be done exactly if no activity is under way, or
/// the innermost one waits for a callback; then nothing has changed.
#[verifier::spinoff_prover]
pub proof fn law_done(s: State)
    ensures
        s.step().1 is Done <==> s.local.frames.len() == 0 || s.local.frames.last() is Running,
        s.step().1 is Done ==> s.step().0 == s,
        s.step().1 is Clock ==> s.step().0 == s,
{
    if s.local.frames.len() > 0 {
        let p = s.pop_frame();
        match s.local.frames.last() {
            FrameModel::Update { effect, skip } => {
                lemma_begin_run_frames(p, effect, RunKind::SingleThenMark);
            },
            FrameModel::Start { effect, kind } => {
                lemma_begin_run_frames(p, effect, kind);
            },
            FrameModel::Running { .. } => {},
            FrameModel::Verify { effect, sources, next, skip } => {
                lemma_begin_run_frames(p, effect, RunKind::SingleThenMark);
            },
            FrameModel::Pull { writers, next, current, skip } => {},
            FrameModel::Track { signal, effect } => {},
            FrameModel::Flush { ids, next, total } => {},
            FrameModel::Budget { must_run, skippable, next, limit, over } => {},
            FrameModel::Schedule => {},
        }
    }
}

// ---------------------------------------------------------------------------
// Runs
// ---------------------------------------------------------------------------

/// The effect whose update or check the innermost activity is.
pub open spec fn updates(s: State, e: EffectId) -> bool {
    s.local.frames.len() > 0 && match s.local.frames.last() {
        FrameModel::Update { effect, .. } => effect == e,
        FrameModel::Verify { effect, .. } => effect == e,
        FrameModel::Start { effect, kind } => effect == e && kind == RunKind::Single,
        _ => false,
    }
}

/// An update runs no callback but that of its own effect, and only if that is stale: a
/// Clean effect never runs again, nor does one that is still Check when all its sources
/// have been looked at, nor one whose callback is running.
pub proof fn law_only_stale_effects_run(s: State, e: EffectId, x: EffectId, f: EffectFn)
    requires
        updates(s, e),
        s.step().1 == Action::Run(x, f),
    ensures
        x == e,
        s.state_of(e) is Dirty || s.local.frames.last() is Start,
        s.state_of(e) !is Clean,
        s.has_callback(e),
        s.effect(e).callback == Some(f),
{
}

/// An effect that is gone does not run, whatever asks for it.
pub proof fn law_stale_effects_never_run(s: State, e: EffectId, kind: RunKind, skip: bool)
    requires
        !s.has_effect(e),
    ensures
        s.start(e, kind).step().1 is Continue,
        s.update(e, skip).step().1 is Continue,
        s.start(e, kind).step().0.effects == s.effects,
        !s.update(e, skip).step().0.local.updated,
{
    assert(s.start(e, kind).pop_frame().local.frames =~= s.local.frames);
    assert(s.start(e, kind).pop_frame() == s);
    assert(s.update(e, skip).pop_frame().local.frames =~= s.local.frames);
    assert(s.update(e, skip).pop_frame() == s);
    lists::lemma_no_links();
    match kind {
        RunKind::Bare => {},
        RunKind::Initial => {},
        RunKind::Now => {
            let off = s.unsubscribe(e);
            assert(off.clear_sources(e) == off);
        },
        RunKind::Single => {},
        RunKind::SingleThenMark => {},
    }
}

/// The update of a Dirty effect runs its callback at once; without one, the effect is
/// Clean, nothing has run, and that is said. The update of a Clean one does nothing.
pub proof fn law_update(s: State, e: EffectId, skip: bool)
    ensures
        s.state_of(e) is Dirty && s.has_callback(e) ==> s.update(e, skip).step().1 == Action::Run(
            e,
            s.effect(e).callback->0,
        ),
        s.state_of(e) is Clean ==> s.update(e, skip).step() == (
            s.with_updated(false),
            Action::Continue,
        ),
        s.state_of(e) is Dirty && !s.has_callback(e) ==> s.update(e, skip).step() == (
            s.set_state(e, ReactiveState::Clean).with_updated(false),
            Action::Continue,
        ),
{
    assert(s.update(e, skip).pop_frame().local.frames =~= s.local.frames);
    assert(s.update(e, skip).pop_frame() == s);
}

/// An effect whose sources have all been looked at and that is still Check is Clean, and
/// has not run.
pub proof fn law_verified_is_clean(
    s: State,
    e: EffectId,
    sources: Seq<SignalId>,
    next: nat,
    skip: bool,
)
    requires
        s.local.frames.len() > 0,
        s.local.frames.last() == (FrameModel::Verify { effect: e, sources, next, skip }),
        next >= sources.len(),
        s.state_of(e) is Check,
    ensures
        s.step().1 is Continue,
        s.step().0.state_of(e) is Clean,
        !s.step().0.local.updated,
        s.step().0.local.frames == s.local.frames.drop_last(),
{
}

/// Before an effect runs again, all it knew of its last run is forgotten: it reads
/// nothing, is no writer of what it wrote, and no signal notifies it. It is Clean, current,
/// and its callback is out of the arena. Of its links only that of a computed value to its
/// own signal is left.
pub proof fn law_run_starts_afresh(s: State, e: EffectId, kind: RunKind)
    requires
        kind == RunKind::Single || kind == RunKind::SingleThenMark,
        s.calls(e, kind),
    ensures
        ({
            let (t, action) = s.begin_run(e, kind);
            &&& action == Action::Run(e, s.effect(e).callback->0)
            &&& t.local.current == Some(e)
            &&& t.has_effect(e)
            &&& t.state_of(e) is Clean
            &&& !t.has_callback(e)
            &&& t.links(e) == model::own_links(s.links(e))
            &&& forall|g: SignalId| !#[trigger] t.has_source(e, g)
            &&& forall|g: SignalId| #[trigger]
                model::written_of(s.links(e)).contains(g) ==> !t.writers_of(g).contains(e)
            &&& s.wf() && s.anchored() ==> forall|g: SignalId|
                !#[trigger] t.subscribers(g).contains(e)
        }),
{
    let clean = s.set_state(e, ReactiveState::Clean);
    let off = clean.unsubscribe(e);
    let written = model::written_of(s.links(e));
    let t = s.begin_run(e, kind).0;
    assert(clean.links(e) == s.links(e));
    links::law_own_links(s.links(e));
    tree::lemma_unregistered(off, written, e);
    assert forall|g: SignalId| #[trigger] written.contains(g) implies !t.writers_of(g).contains(
        e,
    ) by {
        let apart = State { writers: graph::unwritten(off.writers, written, e), ..off };
        assert(t.writers_of(g) == apart.writers_of(g));
    }
    if s.wf() && s.anchored() {
        tree::lemma_set_state(s, e, ReactiveState::Clean);
        valid::lemma_unsubscribe_all(clean, e);
        assert forall|g: SignalId| !#[trigger] t.subscribers(g).contains(e) by {
            assert(t.subscribers(g) == off.subscribers(g));
        }
    }
}

/// When a callback returns, the current effect is the one from before it, the activity is
/// over, and the callback is back with its effect, if that is still there: whatever the
/// callback has done, as long as the activities it began are over.
pub proof fn law_run_restores(s: State, e: EffectId, kind: RunKind, u: State, f: EffectFn)
    requires
        s.calls(e, kind),
        u.wf(),
        u.local.frames == s.begin_run(e, kind).0.local.frames,
    ensures
        u.finish_callback(f).local.frames == s.local.frames,
        u.finish_callback(f).local.current == s.local.current,
        u.finish_callback(f).has_effect(e) ==> u.has_effect(e) && u.finish_callback(f).effect(
            e,
        ).callback == Some(f),
        kind != RunKind::SingleThenMark ==> u.finish_callback(f).has_effect(e) == u.has_effect(e),
        u.has_effect(e) && kind == RunKind::Now ==> u.finish_callback(f).state_of(e) is Clean,
        kind == RunKind::SingleThenMark ==> u.finish_callback(f).local.updated,
{
    lemma_begin_run_frames(s, e, kind);
    assert(s.local.frames.push(
        FrameModel::Running { effect: e, previous: s.local.current, kind },
    ).drop_last() =~= s.local.frames);
    let put = u.pop_frame().put_callback(e, Some(f));
    let back = put.with_current(s.local.current);
    facts::lemma_notify_rest(back, back.told_after(e), false);
    valid::lemma_local_keeps(u, u.pop_frame());
    valid::lemma_put_callback_keeps(u.pop_frame(), e, Some(f));
    valid::lemma_local_keeps(put, back);
    if kind == RunKind::SingleThenMark {
        push::lemma_notify_list(back, back.told_after(e), false);
        let t = back.mark_outputs(e);
        if t.has_effect(e) {
            assert(back.has_effect(e));
        }
    }
}

/// A callback that fails is back with its effect, if that is still there; the current
/// effect is the one from before it, the activity is over, and nothing follows it.
pub proof fn law_failed_run_restores(s: State, e: EffectId, kind: RunKind, u: State, f: EffectFn)
    requires
        s.calls(e, kind),
        u.local.frames == s.begin_run(e, kind).0.local.frames,
    ensures
        u.abort_callback(f).local.frames == s.local.frames,
        u.abort_callback(f).local.current == s.local.current,
        u.has_effect(e) ==> u.abort_callback(f).effect(e) == (EffectModel {
            callback: Some(f),
            ..u.effect(e)
        }),
        u.abort_callback(f).pending == u.pending,
        u.abort_callback(f).signals == u.signals,
{
    assert(s.local.frames.push(
        FrameModel::Running { effect: e, previous: s.local.current, kind },
    ).drop_last() =~= s.local.frames);
}

/// The readers of what an effect has written that are in state Check are told when its run
/// is over, except the effect itself, and except those that are not told of changes from
/// the UI if all writes came from there. A Clean reader has read what was written, and a
/// Dirty one runs in any case. Readers of a computed value are told by the value.
pub proof fn law_told_after_a_run(s: State, e: EffectId, x: EffectId)
    ensures
        s.told_after(e).contains(x) <==> x != e && s.state_of(x) is Check && exists|i: int|
            {
                &&& 0 <= i < s.links(e).len()
                &&& (#[trigger] s.links(e)[i]).1.is_output
                &&& !s.links(e)[i].1.is_own
                &&& s.subscribers(s.links(e)[i].0).contains(x)
                &&& !(s.links(e)[i].1.from_ui && s.is_ui_only(x))
            },
{
    let links = s.links(e);
    lemma_told_over_all(s, e, links, x);
    if s.told_after(e).contains(x) {
        let i = choose|i: int|
            0 <= i < links.len() && s.told_over(e, #[trigger] links[i]).contains(x);
        lemma_told_over(s, e, links[i], x);
        assert(links[i].1.is_output);
    }
    if x != e && s.state_of(x) is Check && exists|i: int|
        {
            &&& 0 <= i < links.len()
            &&& (#[trigger] links[i]).1.is_output
            &&& !links[i].1.is_own
            &&& s.subscribers(links[i].0).contains(x)
            &&& !(links[i].1.from_ui && s.is_ui_only(x))
        } {
        let i = choose|i: int|
            {
                &&& 0 <= i < links.len()
                &&& (#[trigger] links[i]).1.is_output
                &&& !links[i].1.is_own
                &&& s.subscribers(links[i].0).contains(x)
                &&& !(links[i].1.from_ui && s.is_ui_only(x))
            };
        lemma_told_over(s, e, links[i], x);
    }
}

/// Who is told over one link.
proof fn lemma_told_over(s: State, e: EffectId, l: model::Link, x: EffectId)
    ensures
        s.told_over(e, l).contains(x) <==> l.1.is_output && !l.1.is_own && s.subscribers(
            l.0,
        ).contains(x) && x != e && s.state_of(x) is Check && !(l.1.from_ui && s.is_ui_only(x)),
{
    lemma_filter_members(s.subscribers(l.0), s.hears(e, l.1.from_ui), x);
}

/// Who is told over some links.
proof fn lemma_told_over_all(s: State, e: EffectId, links: Seq<model::Link>, x: EffectId)
    ensures
        facts::told_over_all(s, e, links).contains(x) <==> exists|i: int|
            0 <= i < links.len() && s.told_over(e, #[trigger] links[i]).contains(x),
    decreases links.len(),
{
    if links.len() == 0 {
        facts::lemma_told_none(s, e);
        assert(links =~= Seq::empty());
    } else {
        let front = links.drop_last();
        let last = links.last();
        assert(links =~= front.push(last));
        lemma_told_over_all(s, e, front, x);
        facts::lemma_told_push(s, e, front, last);
        let a = facts::told_over_all(s, e, front);
        let b = s.told_over(e, last);
        if (a + b).contains(x) {
            let k = (a + b).index_of(x);
            if k < a.len() {
                assert(a[k] == x);
                let i = choose|i: int|
                    0 <= i < front.len() && s.told_over(e, #[trigger] front[i]).contains(x);
                assert(links[i] == front[i]);
            } else {
                assert(b[k - a.len()] == x);
                assert(links[links.len() - 1] == last);
            }
        }
        if exists|i: int| 0 <= i < links.len() && s.told_over(e, #[trigger] links[i]).contains(x) {
            let i = choose|i: int|
                0 <= i < links.len() && s.told_over(e, #[trigger] links[i]).contains(x);
            if i < front.len() {
                assert(front[i] == links[i]);
                let k = a.index_of(x);
                assert((a + b)[k] == x);
            } else {
                let k = b.index_of(x);
                assert((a + b)[a.len() + k] == x);
            }
        }
    }
}

/// Whoever is told when a run is over is Dirty, and pending if it was not Dirty before; no
/// other effect becomes Dirty by it.
pub proof fn law_told_are_dirty_and_pending(s: State, e: EffectId, x: EffectId)
    requires
        s.wf(),
        s.mark_outputs(e).has_effect(x),
    ensures
        s.has_effect(x),
        s.told_after(e).contains(x) ==> s.mark_outputs(e).state_of(x) is Dirty,
        s.mark_outputs(e).state_of(x) is Dirty && s.state_of(x) !is Dirty ==> s.told_after(
            e,
        ).contains(x) && s.mark_outputs(e).pending.contains(x),
        graph::rank(s.state_of(x)) <= graph::rank(s.mark_outputs(e).state_of(x)),
{
    let list = s.told_after(e);
    push::lemma_notify_list(s, list, false);
    if list.contains(x) {
        assert(push::told(s, list, false, x));
    }
}

// ---------------------------------------------------------------------------
// Pulls
// ---------------------------------------------------------------------------

/// A pull updates no writer that is the current effect, and none that is to be skipped.
pub proof fn law_pull_skips(
    s: State,
    writers: Seq<EffectId>,
    next: nat,
    current: Option<EffectId>,
    skip: bool,
    w: EffectId,
    how: bool,
)
    requires
        s.local.frames.len() > 0,
        s.local.frames.last() == (FrameModel::Pull { writers, next, current, skip }),
        s.step().0.local.frames.len() > s.local.frames.len(),
        s.step().0.local.frames.last() == (FrameModel::Update { effect: w, skip: how }),
    ensures
        next < writers.len(),
        w == writers[next as int],
        current != Some(w),
        skip ==> !s.is_skippable(w),
        how == skip,
{
}

/// Every writer of a pulled signal is updated, unless it is the current effect or to be
/// skipped, before the pull ends.
pub proof fn law_pull_updates_each_writer(
    s: State,
    writers: Seq<EffectId>,
    next: nat,
    current: Option<EffectId>,
    skip: bool,
)
    requires
        s.local.frames.len() > 0,
        s.local.frames.last() == (FrameModel::Pull { writers, next, current, skip }),
    ensures
        ({
            let t = s.step().0.local.frames;
            let rest = s.local.frames.drop_last();
            let after = rest.push(FrameModel::Pull { writers, next: next + 1, current, skip });
            if next >= writers.len() {
                t == rest
            } else if current == Some(writers[next as int]) || (skip && s.is_skippable(
                writers[next as int],
            )) {
                t == after
            } else {
                t == after.push(FrameModel::Update { effect: writers[next as int], skip })
            }
        }),
{
}

// ---------------------------------------------------------------------------
// Flushes
// ---------------------------------------------------------------------------

/// A flush ends only when nothing is pending.
pub proof fn law_flush_ends_with_nothing_pending(
    s: State,
    ids: Seq<EffectId>,
    next: nat,
    total: usize,
)
    requires
        s.local.frames.len() > 0,
        s.local.frames.last() == (FrameModel::Flush { ids, next, total }),
        s.step().0.local.frames.len() < s.local.frames.len(),
    ensures
        next >= ids.len(),
        s.step().0.pending == Seq::<EffectId>::empty(),
        s.step().0.local.processed == total,
{
    assert(s.pending =~= Seq::<EffectId>::empty());
}

/// A flush updates every effect of its round that is not Clean, in order, and counts it.
pub proof fn law_flush_processes_each(s: State, ids: Seq<EffectId>, next: nat, total: usize)
    requires
        s.local.frames.len() > 0,
        s.local.frames.last() == (FrameModel::Flush { ids, next, total }),
        next < ids.len(),
    ensures
        ({
            let t = s.step().0;
            let rest = s.local.frames.drop_last();
            if s.state_of(ids[next as int]) is Clean {
                t.local.frames == rest.push(FrameModel::Flush { ids, next: next + 1, total })
            } else {
                t.local.frames == rest.push(
                    FrameModel::Flush {
                        ids,
                        next: next + 1,
                        total: machine::next_count(total),
                    },
                ).push(FrameModel::Update { effect: ids[next as int], skip: false })
            }
        }),
        s.step().0.effects == s.effects,
        s.step().0.pending == s.pending,
{
}

/// A round of a flush takes every effect that is pending, each of them once.
pub proof fn law_flush_round(s: State, ids: Seq<EffectId>, next: nat, total: usize)
    requires
        s.wf(),
        s.local.frames.len() > 0,
        s.local.frames.last() == (FrameModel::Flush { ids, next, total }),
        next >= ids.len(),
        s.pending.len() > 0,
    ensures
        s.step().0.local.frames.last() == (FrameModel::Flush { ids: s.pending, next: 0, total }),
        s.step().0.pending == Seq::<EffectId>::empty(),
        s.pending.no_duplicates(),
{
}

/// What is pending falls into two lists: who must run, and who can be deferred.
pub proof fn law_pending_split(s: State, e: EffectId)
    ensures
        s.pending_split().0.contains(e) <==> s.pending.contains(e) && !s.is_skippable(e),
        s.pending_split().1.contains(e) <==> s.pending.contains(e) && s.is_skippable(e),
{
    lemma_filter_members(s.pending, |x: EffectId| !s.is_skippable(x), e);
    lemma_filter_members(s.pending, |x: EffectId| s.is_skippable(x), e);
}

/// What a filter keeps.
proof fn lemma_filter_members(list: Seq<EffectId>, keep: spec_fn(EffectId) -> bool, e: EffectId)
    ensures
        list.filter(keep).contains(e) <==> list.contains(e) && keep(e),
{
    if list.contains(e) && keep(e) {
        let i = list.index_of(e);
        list.lemma_filter_contains(keep, i);
    }
    if list.filter(keep).contains(e) {
        list.lemma_filter_contains_rev(keep, e);
        let i = list.filter(keep).index_of(e);
        list.lemma_filter_pred(keep, i);
    }
}

/// With a budget, an effect that can be deferred is updated only while the time is not
/// over. When it is over, or none is left, those that were not reached are deferred,
/// none of them lost, and those that must run are next, whether it is over or not.
pub proof fn law_budget(
    s: State,
    must_run: Seq<EffectId>,
    skippable: Seq<EffectId>,
    next: nat,
    limit: u128,
    elapsed: u128,
)
    requires
        s.local.frames.len() > 0,
        s.local.frames.last() == (FrameModel::Budget {
            must_run,
            skippable,
            next,
            limit,
            over: None,
        }),
        next <= skippable.len(),
    ensures
        ({
            let t = s.clock(elapsed);
            let rest = s.local.frames.drop_last();
            let left = machine::left_of(skippable, next);
            if elapsed > limit || next == skippable.len() {
                t.local.frames == rest.push(
                    FrameModel::Budget {
                        must_run,
                        skippable: left,
                        next: 0,
                        limit,
                        over: Some(elapsed > limit),
                    },
                )
            } else {
                t.local.frames.take(rest.len() as int + 1) == rest.push(
                    FrameModel::Budget { must_run, skippable, next: next + 1, limit, over: None },
                )
            }
        }),
        skippable.take(next as int) + machine::left_of(skippable, next) == skippable,
        s.clock(elapsed).effects == s.effects,
{
    let t = s.clock(elapsed);
    let rest = s.local.frames.drop_last();
    if !(elapsed > limit || next == skippable.len()) {
        assert(t.local.frames.take(rest.len() as int + 1) =~= rest.push(
            FrameModel::Budget { must_run, skippable, next: next + 1, limit, over: None },
        ));
    }
    assert(skippable.take(next as int) + machine::left_of(skippable, next) =~= skippable);
}

/// What a flush with a budget defers can be deferred.
pub proof fn law_deferred_can_be_deferred(
    s: State,
    skippable: Seq<EffectId>,
    next: nat,
    e: EffectId,
)
    requires
        forall|x: EffectId| #[trigger] skippable.contains(x) ==> s.is_skippable(x),
        machine::left_of(skippable + s.pending_split().1, next).contains(e),
    ensures
        s.is_skippable(e),
        skippable.contains(e) || s.pending.contains(e),
{
    let all = skippable + s.pending_split().1;
    let left = machine::left_of(all, next);
    let i = left.index_of(e);
    assert(all[next + i] == e);
    if next + i < skippable.len() {
        assert(skippable[next + i] == e);
        assert(skippable.contains(e));
    } else {
        law_pending_split(s, e);
        assert(s.pending_split().1[next + i - skippable.len()] == e);
        assert(s.pending_split().1.contains(e));
    }
}

/// Effects that must run are all updated, whether the time is over or not: then those
/// that can be deferred are left out while their sources are looked at. The flush ends
/// when the last of them has had its turn, and hands out the two lists.
pub proof fn law_must_run_are_all_processed(
    s: State,
    must_run: Seq<EffectId>,
    skippable: Seq<EffectId>,
    next: nat,
    limit: u128,
    over: bool,
)
    requires
        s.local.frames.len() > 0,
        s.local.frames.last() == (FrameModel::Budget {
            must_run,
            skippable,
            next,
            limit,
            over: Some(over),
        }),
    ensures
        ({
            let t = s.step().0;
            let rest = s.local.frames.drop_last();
            let after = rest.push(
                FrameModel::Budget {
                    must_run,
                    skippable,
                    next: next + 1,
                    limit,
                    over: Some(over),
                },
            );
            if next >= must_run.len() {
                t.local.frames == rest && t.local.budget == Some((must_run, skippable))
            } else if s.state_of(must_run[next as int]) is Clean {
                t.local.frames == after
            } else {
                t.local.frames == after.push(
                    FrameModel::Update { effect: must_run[next as int], skip: over },
                )
            }
        }),
{
}

} // verus!
