//! No change is overlooked: an effect that is Dirty or Check waits somewhere to be
//! processed.
use vstd::prelude::*;

use crate::arena::effect_arena::EffectFn;
use crate::arena::effect_arena::EffectId;
use crate::arena::effect_arena::ReactiveState;
use crate::arena::signal_arena::SignalId;
use crate::laws::drive;
use crate::laws::drive::Host;
use crate::laws::push;
use crate::laws::steps;
use crate::laws::tree;
use crate::laws::valid;
use crate::model;
use crate::model::facts;
use crate::model::EffectModel;
use crate::model::FrameModel;
use crate::model::Link;
use crate::model::RunKind;
use crate::model::State;
use crate::runtime::Action;

verus! {

/// `e` waits in an activity.
pub open spec fn holds(f: FrameModel, e: EffectId) -> bool {
    match f {
        FrameModel::Update { effect, .. } => effect == e,
        FrameModel::Verify { effect, .. } => effect == e,
        FrameModel::Flush { ids, next, .. } => drive::to_come(ids, next, e),
        FrameModel::Budget { must_run, skippable, next, over: None, .. } => drive::to_come(
            must_run,
            0,
            e,
        ) || drive::to_come(skippable, next, e),
        FrameModel::Budget { must_run, skippable, next, over: Some(_), .. } => drive::to_come(
            must_run,
            next,
            e,
        ) || drive::to_come(skippable, 0, e),
        _ => false,
    }
}

/// `e` is among those that the last flush with a budget has deferred, and that nobody has
/// taken yet.
pub open spec fn deferred(s: State, e: EffectId) -> bool {
    s.local.budget matches Some(lists) && lists.1.contains(e)
}

/// `e` waits to be processed: it is pending, or waits in an activity, or is deferred.
pub open spec fn queued(s: State, e: EffectId) -> bool {
    ||| s.pending.contains(e)
    ||| exists|k: int| 0 <= k < s.local.frames.len() && holds(#[trigger] s.local.frames[k], e)
    ||| deferred(s, e)
}

/// Every effect that is not Clean and subscribed to a signal waits to be processed.
pub open spec fn settled(s: State) -> bool {
    forall|g: SignalId, e: EffectId| #[trigger]
        s.subscribers(g).contains(e) && s.state_of(e) !is Clean ==> queued(s, e)
}

/// When nothing is under way, and nothing is deferred, every effect that is Dirty or Check
/// and subscribed to a signal is pending: the next flush processes it.
pub proof fn law_stale_is_pending(s: State, g: SignalId, e: EffectId)
    requires
        settled(s),
        s.local.frames.len() == 0,
        s.local.budget is None,
        s.subscribers(g).contains(e),
        s.state_of(e) !is Clean,
    ensures
        s.pending.contains(e),
{
}

/// A new runtime overlooks nothing.
pub proof fn law_fresh_is_settled()
    ensures
        settled(State::fresh()),
{
    assert forall|g: SignalId, e: EffectId| !#[trigger] State::fresh().subscribers(g).contains(
        e,
    ) by {}
}

// ---------------------------------------------------------------------------
// What users do
// ---------------------------------------------------------------------------

/// A push overlooks nothing.
proof fn lemma_pushed_settled(s: State, t: State)
    requires
        settled(s),
        push::pushed(s, t),
    ensures
        settled(t),
{
    assert forall|e: EffectId| #[trigger] queued(s, e) && t.state_of(e) !is Clean implies queued(
        t,
        e,
    ) by {
        assert(t.has_effect(e));
    }
    assert forall|g: SignalId, e: EffectId| #[trigger]
        t.subscribers(g).contains(e) && t.state_of(e) !is Clean implies queued(t, e) by {
        assert(s.subscribers(g).contains(e));
        assert(t.has_effect(e));
        if s.state_of(e) !is Clean {
            assert(queued(s, e));
        }
    }
}

/// Less is subscribed, and nothing else of interest is changed.
proof fn lemma_fewer_settled(s: State, t: State)
    requires
        settled(s),
        forall|g: SignalId, e: EffectId| #[trigger]
            t.subscribers(g).contains(e) ==> s.subscribers(g).contains(e),
        forall|e: EffectId| #[trigger] t.state_of(e) !is Clean ==> s.state_of(e) !is Clean,
        forall|e: EffectId| #[trigger]
            s.pending.contains(e) && t.state_of(e) !is Clean ==> t.pending.contains(e),
        t.local.budget == s.local.budget,
        t.local.frames.len() >= s.local.frames.len(),
        t.local.frames.take(s.local.frames.len() as int) == s.local.frames,
    ensures
        settled(t),
{
    assert forall|g: SignalId, e: EffectId| #[trigger]
        t.subscribers(g).contains(e) && t.state_of(e) !is Clean implies queued(t, e) by {
        assert(s.subscribers(g).contains(e));
        assert(queued(s, e));
        if exists|k: int| 0 <= k < s.local.frames.len() && holds(#[trigger] s.local.frames[k], e) {
            let k = choose|k: int|
                0 <= k < s.local.frames.len() && holds(#[trigger] s.local.frames[k], e);
            assert(t.local.frames[k] == t.local.frames.take(s.local.frames.len() as int)[k]);
            assert(holds(t.local.frames[k], e));
        }
    }
}

/// An emit overlooks nothing.
pub proof fn law_emit_keeps_settled(s: State, g: SignalId, from_ui: bool)
    requires
        s.wf(),
        settled(s),
    ensures
        settled(s.emit(g, from_ui)),
{
    let ui = s.counts_as_ui(from_ui);
    let r = s.register_writer(g, ui);
    let n = r.notify_subscribers(g, ui);
    let t = s.emit(g, from_ui);
    valid::lemma_register_writer(s, g, ui);
    if let Some(c) = s.local.current {
        if s.has_source(c, g) {
            valid::lemma_remove_subscriber(s.with_warning(c, g), g, c);
            let apart = s.with_warning(c, g).remove_subscriber(g, c);
            assert forall|h: SignalId, e: EffectId| #[trigger]
                r.subscribers(h).contains(e) implies s.subscribers(h).contains(e) by {
                assert(r.subscribers(h) == apart.subscribers(h));
                assert(apart.subscribers(h).contains(e));
                assert(s.with_warning(c, g).subscribers(h) == s.subscribers(h));
            }
        } else {
            assert forall|h: SignalId| #[trigger] r.subscribers(h) == s.subscribers(h) by {}
        }
    }
    assert(r.local.frames.take(s.local.frames.len() as int) =~= s.local.frames);
    lemma_fewer_settled(s, r);
    push::lemma_notify_list(r, r.subscribers(g), ui);
    lemma_pushed_settled(r, n);
    assert(t.local.frames.take(n.local.frames.len() as int) =~= n.local.frames);
    assert forall|h: SignalId| #[trigger] t.subscribers(h) == n.subscribers(h) by {}
    lemma_fewer_settled(n, t);
}

/// Marking, notifying and destroying overlook nothing.
pub proof fn law_marking_keeps_settled(
    s: State,
    e: EffectId,
    list: Seq<EffectId>,
    from_ui: bool,
)
    requires
        s.wf(),
        settled(s),
    ensures
        settled(s.mark_pending(e)),
        settled(s.check_list(list)),
        settled(s.notify_list(list, from_ui)),
        settled(s.destroy_children(e)),
{
    push::lemma_mark_pending_pushed(s, e);
    lemma_pushed_settled(s, s.mark_pending(e));
    push::lemma_check_list_pushed(s, list);
    lemma_pushed_settled(s, s.check_list(list));
    push::lemma_notify_list(s, list, from_ui);
    lemma_pushed_settled(s, s.notify_list(list, from_ui));
    tree::law_destroy_children(s, e);
    let t = s.destroy_children(e);
    assert forall|x: EffectId| #[trigger] t.state_of(x) !is Clean implies s.state_of(x) !is Clean by {
        assert(t.has_effect(x));
    }
    assert forall|x: EffectId| #[trigger]
        s.pending.contains(x) && t.state_of(x) !is Clean implies t.pending.contains(x) by {
        assert(t.has_effect(x));
    }
    assert(t.local.frames.take(s.local.frames.len() as int) =~= s.local.frames);
    lemma_fewer_settled(s, t);
}

/// A read overlooks nothing, unless a stale effect that waits nowhere makes it.
pub proof fn law_track_keeps_settled(s: State, g: SignalId, e: EffectId)
    requires
        settled(s),
        s.state_of(e) !is Clean ==> queued(s, e),
    ensures
        settled(s.track(g, Some(e))),
{
    let t = s.track(g, Some(e));
    let read = s.add_source(e, g);
    facts::lemma_insert_once(read.subscribers(g), e);
    assert forall|h: SignalId, x: EffectId| #[trigger]
        t.subscribers(h).contains(x) && t.state_of(x) !is Clean implies queued(t, x) by {
        assert(s.state_of(x) == t.state_of(x));
        if x != e {
            assert(s.subscribers(h) == read.subscribers(h));
            assert(s.subscribers(h).contains(x));
        }
        assert(queued(s, x));
    }
}

/// A new effect overlooks nothing: no signal notifies it yet.
pub proof fn law_create_keeps_settled(s: State, key: nat, e: EffectId, m: EffectModel)
    requires
        s.anchored(),
        settled(s),
        s.vacant_effect(key),
    ensures
        settled(s.create(key, e, m)),
{
    let t = s.create(key, e, m);
    assert forall|h: SignalId, x: EffectId| #[trigger]
        t.subscribers(h).contains(x) && t.state_of(x) !is Clean implies queued(t, x) by {
        assert(s.subscribers(h).contains(x));
        assert(s.has_source(x, h));
        assert(x.0 != key);
        assert(t.effects[x.0 as int] == s.effects[x.0 as int]);
        assert(queued(s, x));
    }
}

/// To give up an effect overlooks nothing.
#[verifier::spinoff_prover]
pub proof fn law_dispose_effect_keeps_settled(s: State, e: EffectId)
    requires
        s.wf(),
        s.anchored(),
        settled(s),
    ensures
        settled(s.dispose_effect(e)),
{
    let t = s.dispose_effect(e);
    valid::law_dispose_effect(s, e);
    facts::lemma_swap_removed(s.pending, e);
    let idle = s.pending_remove(e);
    assert forall|h: SignalId| #[trigger] idle.subscribers(h) == s.subscribers(h) by {}
    if s.has_effect(e) {
        let off = idle.unsubscribe(e);
        let apart = off.unregister(e);
        let cut = apart.destroy_children(e);
        tree::lemma_unsubscribe(idle, e);
        assert forall|h: SignalId| #[trigger] apart.subscribers(h) == off.subscribers(h) by {}
        valid::lemma_unsubscribe_all(idle, e);
        valid::lemma_unregister(off, off.outputs(e), e);
        tree::law_destroy_children(apart, e);
        assert forall|h: SignalId, x: EffectId| #[trigger]
            t.subscribers(h).contains(x) && t.state_of(x) !is Clean implies queued(t, x) by {
            assert(x != e);
            if s.parents.contains_key(e) {
                assert(off.subscribers(h).contains(x));
            } else {
                assert(t.subscribers(h) == cut.subscribers(h));
                assert(cut.subscribers(h).contains(x));
                assert(apart.subscribers(h).contains(x));
                assert(off.subscribers(h).contains(x));
                assert(t.has_effect(x));
                assert(cut.has_effect(x));
                assert(cut.effect(x) == apart.effect(x));
            }
            assert(idle.subscribers(h).contains(x));
            assert(s.subscribers(h).contains(x));
            assert(s.state_of(x) !is Clean);
            assert(queued(s, x));
            if s.pending.contains(x) {
                assert(idle.pending.contains(x));
            }
        }
    } else {
        assert forall|h: SignalId, x: EffectId| #[trigger]
            t.subscribers(h).contains(x) && t.state_of(x) !is Clean implies queued(t, x) by {
            assert(s.subscribers(h).contains(x));
            assert(s.has_effect(x));
            assert(queued(s, x));
        }
    }
}

/// The beginning of a flush with a budget overlooks nothing.
pub proof fn law_flush_with_budget_keeps_settled(
    s: State,
    limit: u128,
    must_run: Seq<EffectId>,
    skippable: Seq<EffectId>,
)
    requires
        settled(s),
    ensures
        settled(s.flush_with_budget(limit, must_run, skippable)),
{
    let t = s.flush_with_budget(limit, must_run, skippable);
    let n = s.local.frames.len() as int;
    let a = must_run + s.pending_split().0;
    let b = skippable + s.pending_split().1;
    assert forall|h: SignalId, x: EffectId| #[trigger]
        t.subscribers(h).contains(x) && t.state_of(x) !is Clean implies queued(t, x) by {
        assert(s.subscribers(h).contains(x));
        assert(queued(s, x));
        if s.pending.contains(x) {
            steps::law_pending_split(s, x);
            if s.is_skippable(x) {
                let j = s.pending_split().1.index_of(x);
                assert(b[skippable.len() + j] == x);
                assert(drive::to_come(b, 0, x));
            } else {
                let j = s.pending_split().0.index_of(x);
                assert(a[must_run.len() + j] == x);
                assert(drive::to_come(a, 0, x));
            }
            assert(holds(t.local.frames[n], x));
        } else if !deferred(s, x) {
            let k = choose|k: int|
                0 <= k < s.local.frames.len() && holds(#[trigger] s.local.frames[k], x);
            assert(t.local.frames[k] == s.local.frames[k]);
        }
    }
}

// ---------------------------------------------------------------------------
// Steps
// ---------------------------------------------------------------------------

/// How the queue is carried over a step that takes the innermost activity off the stack.
proof fn lemma_carry(s: State, t: State)
    requires
        settled(s),
        s.local.frames.len() > 0,
        steps::extends(s.local.frames.drop_last(), t.local.frames),
        forall|e: EffectId| #[trigger]
            s.pending.contains(e) && t.state_of(e) !is Clean ==> queued(t, e),
        forall|e: EffectId| #[trigger]
            holds(s.local.frames.last(), e) && t.state_of(e) !is Clean ==> queued(t, e),
        forall|e: EffectId| #[trigger] deferred(s, e) && t.state_of(e) !is Clean ==> queued(t, e),
        forall|g: SignalId, e: EffectId| #[trigger]
            t.subscribers(g).contains(e) && t.state_of(e) !is Clean ==> queued(t, e)
                || s.subscribers(g).contains(e),
        forall|e: EffectId| #[trigger]
            t.state_of(e) !is Clean ==> queued(t, e) || s.state_of(e) !is Clean,
    ensures
        settled(t),
{
    let rest = s.local.frames.drop_last();
    assert forall|g: SignalId, e: EffectId| #[trigger]
        t.subscribers(g).contains(e) && t.state_of(e) !is Clean implies queued(t, e) by {
        if !queued(t, e) {
            assert(s.subscribers(g).contains(e) && s.state_of(e) !is Clean);
            assert(queued(s, e));
            let k = choose|k: int|
                0 <= k < s.local.frames.len() && holds(#[trigger] s.local.frames[k], e);
            if k < rest.len() {
                assert(rest[k] == s.local.frames[k]);
                assert(t.local.frames[k] == rest[k]);
                assert(holds(t.local.frames[k], e));
            } else {
                assert(holds(s.local.frames.last(), e));
            }
        }
    }
}

/// Nobody is subscribed or stale in `t` that was not in `s`, and who waits in either of
/// the lists of the runtime waits there still.
spec fn quieter(s: State, t: State) -> bool {
    &&& forall|g: SignalId, x: EffectId| #[trigger]
        t.subscribers(g).contains(x) ==> s.subscribers(g).contains(x)
    &&& forall|x: EffectId| #[trigger] t.state_of(x) !is Clean ==> s.state_of(x) !is Clean
    &&& t.pending == s.pending
    &&& t.local.budget == s.local.budget
}

/// Quieter, and quieter again.
proof fn lemma_quieter_trans(s: State, t: State, u: State)
    requires
        quieter(s, t),
        quieter(t, u),
    ensures
        quieter(s, u),
{
    assert forall|g: SignalId, x: EffectId| #[trigger]
        u.subscribers(g).contains(x) implies s.subscribers(g).contains(x) by {
        assert(t.subscribers(g).contains(x));
    }
    assert forall|x: EffectId| #[trigger] u.state_of(x) !is Clean implies s.state_of(x)
        !is Clean by {
        assert(t.state_of(x) !is Clean);
    }
}

/// What the thread has of its own does not matter, but for what is deferred.
proof fn lemma_quieter_local(s: State, t: State)
    requires
        t.signals == s.signals,
        t.signal_gens == s.signal_gens,
        t.effects == s.effects,
        t.effect_gens == s.effect_gens,
        t.pending == s.pending,
        t.local.budget == s.local.budget,
    ensures
        quieter(s, t),
        forall|x: EffectId| #[trigger] t.state_of(x) == s.state_of(x),
{
    assert forall|g: SignalId| #[trigger] t.subscribers(g) == s.subscribers(g) by {}
    assert forall|x: EffectId| #[trigger] t.state_of(x) == s.state_of(x) by {}
}

/// An effect that is set Clean.
proof fn lemma_quieter_clean(s: State, e: EffectId)
    ensures
        quieter(s, s.set_state(e, ReactiveState::Clean)),
        s.set_state(e, ReactiveState::Clean).state_of(e) is Clean,
{
    let t = s.set_state(e, ReactiveState::Clean);
    tree::lemma_set_state(s, e, ReactiveState::Clean);
    assert forall|g: SignalId| #[trigger] t.subscribers(g) == s.subscribers(g) by {}
}

/// An effect that is unsubscribed, and whose links are others.
proof fn lemma_quieter_links(s: State, t: State, e: EffectId)
    requires
        t.signals == s.unsubscribe(e).signals,
        t.signal_gens == s.signal_gens,
        t.effect_gens == s.effect_gens,
        t.pending == s.pending,
        t.local.budget == s.local.budget,
        t.effects == s.effects || exists|l: Seq<Link>| t.effects == #[trigger] s.put_links(
            e,
            l,
        ).effects,
    ensures
        quieter(s, t),
        forall|x: EffectId| #[trigger] t.state_of(x) == s.state_of(x),
{
    tree::lemma_unsubscribe(s, e);
    assert forall|g: SignalId| #[trigger] t.subscribers(g) == s.unsubscribe(e).subscribers(g) by {}
    assert forall|x: EffectId| #[trigger] t.state_of(x) == s.state_of(x) by {}
}

/// What precedes a callback makes nobody stale and subscribes nobody; the effect itself is
/// Clean, if it runs because it was stale.
#[verifier::spinoff_prover]
proof fn lemma_prepare_quiet(s: State, e: EffectId, kind: RunKind)
    ensures
        quieter(s, s.prepare_run(e, kind)),
        kind == RunKind::Single || kind == RunKind::SingleThenMark ==> s.prepare_run(
            e,
            kind,
        ).state_of(e) is Clean,
{
    let t = s.prepare_run(e, kind);
    match kind {
        RunKind::Bare => {
            lemma_quieter_local(s, t);
        },
        RunKind::Initial => {
            lemma_quieter_local(s, t);
        },
        RunKind::Now => {
            let off = s.unsubscribe(e);
            let l = model::unlink_sources(off.links(e));
            assert(off.clear_sources(e).effects == s.put_links(e, l).effects);
            lemma_quieter_links(s, off.clear_sources(e), e);
            lemma_quieter_local(off.clear_sources(e), t);
            lemma_quieter_trans(s, off.clear_sources(e), t);
        },
        RunKind::Single | RunKind::SingleThenMark => {
            let clean = s.set_state(e, ReactiveState::Clean);
            lemma_quieter_clean(s, e);
            if s.wanted(e, kind) {
                let l = model::own_links(clean.links(e));
                let bare = clean.forget_run(e);
                assert(bare.effects == clean.put_links(e, l).effects);
                lemma_quieter_links(clean, bare, e);
                lemma_quieter_local(bare, t);
                lemma_quieter_trans(clean, bare, t);
                lemma_quieter_trans(s, clean, t);
            }
        },
    }
}

/// The beginning of a run makes nobody stale and subscribes nobody; the effect itself is
/// Clean, if it runs because it was stale.
#[verifier::spinoff_prover]
proof fn lemma_begin_run_quiet(s: State, e: EffectId, kind: RunKind)
    ensures
        quieter(s, s.begin_run(e, kind).0),
        kind == RunKind::Single || kind == RunKind::SingleThenMark ==> s.begin_run(
            e,
            kind,
        ).0.state_of(e) is Clean,
{
    let ready = s.prepare_run(e, kind);
    let t = s.begin_run(e, kind).0;
    lemma_prepare_quiet(s, e, kind);
    if s.calls(e, kind) {
        let put = ready.put_callback(e, None);
        assert forall|x: EffectId| #[trigger] put.state_of(x) == ready.state_of(x) by {}
        assert forall|g: SignalId| #[trigger] put.subscribers(g) == ready.subscribers(g) by {}
        lemma_quieter_local(put, t);
        lemma_quieter_trans(ready, put, t);
        lemma_quieter_trans(s, ready, t);
    } else {
        let back = ready.with_current(s.local.current);
        lemma_quieter_local(ready, back);
        lemma_quieter_trans(s, ready, back);
        match kind {
            RunKind::Now => {
                lemma_quieter_clean(back, e);
                lemma_quieter_trans(s, back, t);
            },
            RunKind::SingleThenMark => {
                lemma_quieter_local(back, t);
                lemma_quieter_trans(s, back, t);
            },
            _ => {},
        }
    }
}

/// A stale effect that waits nowhere is about to be subscribed to a signal.
pub open spec fn tracks_unqueued(s: State) -> bool {
    s.local.frames.len() > 0 && match s.local.frames.last() {
        FrameModel::Track { effect: Some(e), .. } => s.state_of(e) !is Clean && !queued(s, e),
        _ => false,
    }
}

/// A flush with a budget is about to defer effects, and those that were deferred before it
/// have not been taken yet.
pub open spec fn forgets_deferred(s: State) -> bool {
    s.local.budget is Some && s.local.frames.len() > 0 && match s.local.frames.last() {
        FrameModel::Budget { must_run, next, over: Some(_), .. } => next >= must_run.len(),
        _ => false,
    }
}

/// A step overlooks nothing. (One that subscribes a stale effect that waits nowhere does,
/// and one that forgets whom an earlier flush has deferred.)
#[verifier::spinoff_prover]
#[verifier::rlimit(40)]
pub proof fn law_step_keeps_settled(s: State)
    requires
        settled(s),
        !tracks_unqueued(s),
        !forgets_deferred(s),
    ensures
        settled(s.step().0),
{
    if s.local.frames.len() > 0 {
        let rest = s.local.frames.drop_last();
        let n = rest.len() as int;
        let p = s.pop_frame();
        let t = s.step().0;
        steps::lemma_step_extends(s);
        match s.local.frames.last() {
            FrameModel::Update { effect, skip } => {
                lemma_begin_run_quiet(p, effect, RunKind::SingleThenMark);
                match p.state_of(effect) {
                    ReactiveState::Clean => {},
                    ReactiveState::Check => {},
                    ReactiveState::Dirty => {
                        assert forall|g: SignalId| #[trigger] p.subscribers(g) == s.subscribers(
                            g,
                        ) by {}
                    },
                }
                lemma_quiet_step(s, t);
            },
            FrameModel::Start { effect, kind } => {
                lemma_begin_run_quiet(p, effect, kind);
                lemma_quiet_step(s, t);
            },
            FrameModel::Running { .. } => {},
            FrameModel::Verify { effect, sources, next, skip } => {
                lemma_begin_run_quiet(p, effect, RunKind::SingleThenMark);
                if next < sources.len() && p.state_of(effect) !is Dirty {
                    assert(holds(t.local.frames[n], effect));
                }
                lemma_quiet_step(s, t);
            },
            FrameModel::Pull { writers, next, current, skip } => {
                lemma_quiet_step(s, t);
            },
            FrameModel::Track { signal, effect } => {
                lemma_track_step(s, signal, effect);
            },
            FrameModel::Flush { ids, next, total } => {
                lemma_flush_step(s, ids, next, total);
            },
            FrameModel::Budget { must_run, skippable, next, limit, over } => {
                if let Some(o) = over {
                    lemma_must_run_step(s, must_run, skippable, next, limit, o);
                }
            },
            FrameModel::Schedule => {
                lemma_quiet_step(s, t);
            },
        }
    }
}

/// A step that subscribes nobody, makes nobody stale, and leaves the pending set.
proof fn lemma_quiet_step(s: State, t: State)
    requires
        settled(s),
        s.local.frames.len() > 0,
        steps::extends(s.local.frames.drop_last(), t.local.frames),
        t.pending == s.pending,
        t.local.budget == s.local.budget,
        forall|g: SignalId, x: EffectId| #[trigger]
            t.subscribers(g).contains(x) ==> s.pop_frame().subscribers(g).contains(x),
        forall|x: EffectId| #[trigger]
            t.state_of(x) !is Clean ==> s.pop_frame().state_of(x) !is Clean,
        forall|x: EffectId| #[trigger]
            holds(s.local.frames.last(), x) && t.state_of(x) !is Clean ==> queued(t, x),
    ensures
        settled(t),
{
    let p = s.pop_frame();
    assert forall|g: SignalId| #[trigger] p.subscribers(g) == s.subscribers(g) by {}
    assert forall|g: SignalId, x: EffectId| #[trigger]
        t.subscribers(g).contains(x) implies s.subscribers(g).contains(x) by {
        assert(p.subscribers(g).contains(x));
    }
    assert forall|x: EffectId| #[trigger] t.state_of(x) !is Clean implies s.state_of(x) !is Clean by {
        assert(p.state_of(x) !is Clean);
    }
    lemma_carry(s, t);
}

/// The step that subscribes an effect.
proof fn lemma_track_step(s: State, g: SignalId, effect: Option<EffectId>)
    requires
        settled(s),
        !tracks_unqueued(s),
        s.local.frames.len() > 0,
        s.local.frames.last() == (FrameModel::Track { signal: g, effect }),
    ensures
        settled(s.step().0),
{
    let p = s.pop_frame();
    let t = s.step().0;
    assert(t == p.track(g, effect));
    steps::lemma_step_extends(s);
    assert forall|x: EffectId| #[trigger] t.state_of(x) == s.state_of(x) by {}
    assert forall|h: SignalId, x: EffectId| #[trigger]
        t.subscribers(h).contains(x) && t.state_of(x) !is Clean implies queued(t, x)
        || s.subscribers(h).contains(x) by {
        if let Some(e) = effect {
            let read = p.add_source(e, g);
            facts::lemma_insert_once(read.subscribers(g), e);
            if x == e {
                assert(queued(s, e));
                if !s.pending.contains(e) && !deferred(s, e) {
                    let k = choose|k: int|
                        0 <= k < s.local.frames.len() && holds(#[trigger] s.local.frames[k], e);
                    assert(k < s.local.frames.len() - 1);
                    assert(t.local.frames[k] == s.local.frames[k]);
                }
            } else {
                assert(read.subscribers(h) == s.subscribers(h));
            }
        } else {
            assert(t.subscribers(h) == s.subscribers(h));
        }
    }
    lemma_carry(s, t);
}

/// One step of a flush.
proof fn lemma_flush_step(s: State, ids: Seq<EffectId>, next: nat, total: usize)
    requires
        settled(s),
        s.local.frames.len() > 0,
        s.local.frames.last() == (FrameModel::Flush { ids, next, total }),
    ensures
        settled(s.step().0),
{
    let t = s.step().0;
    let n = s.local.frames.len() - 1;
    steps::lemma_step_extends(s);
    assert forall|x: EffectId| #[trigger] t.state_of(x) == s.state_of(x) by {}
    assert forall|h: SignalId| #[trigger] t.subscribers(h) == s.subscribers(h) by {}
    assert forall|e: EffectId| #[trigger]
        s.pending.contains(e) && t.state_of(e) !is Clean implies queued(t, e) by {
        if next >= ids.len() && s.pending.len() > 0 {
            let j = s.pending.index_of(e);
            assert(s.pending[j] == e);
            assert(drive::to_come(s.pending, 0, e));
            assert(holds(t.local.frames[n], e));
        }
    }
    assert forall|e: EffectId| #[trigger]
        holds(s.local.frames.last(), e) && t.state_of(e) !is Clean implies queued(t, e) by {
        let j = choose|j: int| next <= j < ids.len() && #[trigger] ids[j] == e;
        if j == next {
            assert(holds(t.local.frames[n + 1], e));
        } else {
            assert(drive::to_come(ids, next + 1, e));
            assert(holds(t.local.frames[n], e));
        }
    }
    lemma_carry(s, t);
}

/// One step of a flush with a budget, among those that must run.
proof fn lemma_must_run_step(
    s: State,
    must_run: Seq<EffectId>,
    skippable: Seq<EffectId>,
    next: nat,
    limit: u128,
    over: bool,
)
    requires
        settled(s),
        !forgets_deferred(s),
        s.local.frames.len() > 0,
        s.local.frames.last() == (FrameModel::Budget {
            must_run,
            skippable,
            next,
            limit,
            over: Some(over),
        }),
    ensures
        settled(s.step().0),
{
    let t = s.step().0;
    let n = s.local.frames.len() - 1;
    steps::lemma_step_extends(s);
    assert forall|x: EffectId| #[trigger] t.state_of(x) == s.state_of(x) by {}
    assert forall|h: SignalId| #[trigger] t.subscribers(h) == s.subscribers(h) by {}
    assert forall|e: EffectId| #[trigger]
        holds(s.local.frames.last(), e) && t.state_of(e) !is Clean implies queued(t, e) by {
        if drive::to_come(skippable, 0, e) {
            if next < must_run.len() {
                assert(holds(t.local.frames[n], e));
            } else {
                let j = choose|j: int| 0 <= j < skippable.len() && #[trigger] skippable[j] == e;
                assert(skippable.contains(e));
                assert(deferred(t, e));
            }
        } else {
            let j = choose|j: int| next <= j < must_run.len() && #[trigger] must_run[j] == e;
            if j == next {
                assert(holds(t.local.frames[n + 1], e));
            } else {
                assert(drive::to_come(must_run, next + 1, e));
                assert(holds(t.local.frames[n], e));
            }
        }
    }
    lemma_carry(s, t);
}

/// The clock overlooks nothing.
pub proof fn law_clock_keeps_settled(s: State, elapsed: u128)
    requires
        settled(s),
    ensures
        settled(s.clock(elapsed)),
{
    if s.local.frames.len() > 0 {
        if let FrameModel::Budget { must_run, skippable, next, limit, over: None } =
            s.local.frames.last() {
            let t = s.clock(elapsed);
            let n = s.local.frames.len() - 1;
            let left = crate::model::machine::left_of(skippable, next);
            assert forall|x: EffectId| #[trigger] t.state_of(x) == s.state_of(x) by {}
            assert forall|h: SignalId| #[trigger] t.subscribers(h) == s.subscribers(h) by {}
            assert forall|e: EffectId| #[trigger]
                holds(s.local.frames.last(), e) && t.state_of(e) !is Clean implies queued(t, e) by {
                if drive::to_come(must_run, 0, e) {
                    assert(holds(t.local.frames[n], e));
                } else {
                    let j = choose|j: int|
                        next <= j < skippable.len() && #[trigger] skippable[j] == e;
                    if elapsed <= limit && next < skippable.len() {
                        if j == next {
                            assert(holds(t.local.frames[n + 1], e));
                        } else {
                            assert(drive::to_come(skippable, next + 1, e));
                            assert(holds(t.local.frames[n], e));
                        }
                    } else {
                        assert(left[j - next] == e);
                        assert(drive::to_come(left, 0, e));
                        assert(holds(t.local.frames[n], e));
                    }
                }
            }
            lemma_carry(s, t);
        }
    }
}

/// A callback that returns overlooks nothing.
#[verifier::spinoff_prover]
pub proof fn law_finish_callback_keeps_settled(s: State, f: EffectFn)
    requires
        s.wf(),
        settled(s),
    ensures
        settled(s.finish_callback(f)),
{
    if s.local.frames.len() > 0 {
        if let FrameModel::Running { effect, previous, kind } = s.local.frames.last() {
            let popped = s.pop_frame();
            let put = popped.put_callback(effect, Some(f));
            let back = put.with_current(previous);
            let t = s.finish_callback(f);
            valid::lemma_local_keeps(s, popped);
            valid::lemma_put_callback_keeps(popped, effect, Some(f));
            valid::lemma_local_keeps(put, back);
            assert forall|x: EffectId| #[trigger] back.state_of(x) == s.state_of(x) by {}
            assert forall|h: SignalId| #[trigger] back.subscribers(h) == s.subscribers(h) by {}
            lemma_carry(s, back);
            match kind {
                RunKind::Now => {
                    tree::lemma_set_state(back, effect, ReactiveState::Clean);
                    assert forall|h: SignalId| #[trigger] t.subscribers(h) == back.subscribers(h) by {}
                    assert(t.local.frames.take(back.local.frames.len() as int)
                        =~= back.local.frames);
                    lemma_fewer_settled(back, t);
                },
                RunKind::SingleThenMark => {
                    let marked = back.mark_outputs(effect);
                    push::lemma_notify_list(back, back.told_after(effect), false);
                    lemma_pushed_settled(back, marked);
                    assert forall|h: SignalId| #[trigger] t.subscribers(h) == marked.subscribers(
                        h,
                    ) by {}
                    assert(t.local.frames.take(marked.local.frames.len() as int)
                        =~= marked.local.frames);
                    lemma_fewer_settled(marked, t);
                },
                _ => {},
            }
        }
    }
}

// ---------------------------------------------------------------------------
// Whole flushes
// ---------------------------------------------------------------------------

/// Callbacks leave the runtime well formed, and overlook nothing.
pub open spec fn overlooks_nothing(host: Host) -> bool {
    forall|s: State, e: EffectId, f: EffectFn|
        s.wf() && settled(s) ==> (#[trigger] (host.run)(s, e, f)).0.wf() && settled(
            (host.run)(s, e, f).0,
        )
}

/// One step of a flush, callback included.
proof fn lemma_advance_settled(s: State, depth: nat, host: Host)
    requires
        host.orderly(),
        overlooks_nothing(host),
        s.wf(),
        settled(s),
        drive::flushing(s, depth),
        drive::all_tame(s, depth),
    ensures
        drive::advance(s, host).wf(),
        settled(drive::advance(s, host)),
{
    let (t, action) = s.step();
    if s.local.frames.len() > depth + 1 {
        assert(drive::tame(s.local.frames[s.local.frames.len() - 1]));
    } else {
        assert(s.local.frames.last() == s.local.frames[depth as int]);
    }
    law_step_keeps_settled(s);
    valid::law_step_keeps_validity(s);
    match action {
        Action::Run(e, f) => {
            let (u, g) = (host.run)(t, e, f);
            law_finish_callback_keeps_settled(u, g);
            valid::law_finish_callback_keeps_validity(u, g);
        },
        Action::Clock => {
            steps::law_done(s);
            law_clock_keeps_settled(t, (host.time)(t));
            valid::law_clock_keeps_validity(t, (host.time)(t));
        },
        _ => {},
    }
}

/// A flush, to its end.
proof fn lemma_flush_settled(s: State, depth: nat, host: Host, fuel: nat)
    requires
        host.orderly(),
        overlooks_nothing(host),
        s.wf(),
        settled(s),
        drive::flushing(s, depth),
        drive::all_tame(s, depth),
    ensures
        drive::drive(s, depth, host, fuel).wf(),
        settled(drive::drive(s, depth, host, fuel)),
    decreases fuel,
{
    if fuel > 0 {
        let n = drive::advance(s, host);
        lemma_advance_settled(s, depth, host);
        drive::lemma_stays_tame(s, depth, host);
        drive::lemma_flush_goes_on(s, depth, host);
        if drive::flushing(n, depth) {
            lemma_flush_settled(n, depth, host, (fuel - 1) as nat);
        }
    }
}

/// When all pending effects have been processed, with nothing else under way, no effect
/// that a signal notifies is left Dirty or Check, unless a flush with a budget has deferred
/// it: no change is overlooked.
pub proof fn law_process_all_leaves_nobody_stale(
    s: State,
    host: Host,
    fuel: nat,
    g: SignalId,
    e: EffectId,
)
    requires
        host.orderly(),
        overlooks_nothing(host),
        s.wf(),
        settled(s),
        s.local.frames.len() == 0,
        drive::drive(s.process_all(), 0, host, fuel).local.frames.len() == 0,
        drive::drive(s.process_all(), 0, host, fuel).subscribers(g).contains(e),
    ensures
        drive::drive(s.process_all(), 0, host, fuel).state_of(e) is Clean || deferred(
            drive::drive(s.process_all(), 0, host, fuel),
            e,
        ),
{
    let begun = s.process_all();
    valid::lemma_local_keeps(s, begun);
    assert(begun.local.frames.take(0) =~= s.local.frames);
    assert forall|h: SignalId| #[trigger] begun.subscribers(h) == s.subscribers(h) by {}
    lemma_fewer_settled(s, begun);
    lemma_flush_settled(begun, 0, host, fuel);
    drive::law_process_all_leaves_nothing_pending(s, host, fuel);
}

/// Nor is any when a flush is over.
pub proof fn law_flush_leaves_nobody_stale(
    s: State,
    host: Host,
    fuel: nat,
    g: SignalId,
    e: EffectId,
)
    requires
        host.orderly(),
        overlooks_nothing(host),
        s.wf(),
        settled(s),
        s.local.frames.len() == 0,
        drive::drive(s.flush(), 0, host, fuel).local.frames.len() == 0,
        drive::drive(s.flush(), 0, host, fuel).subscribers(g).contains(e),
    ensures
        drive::drive(s.flush(), 0, host, fuel).state_of(e) is Clean || deferred(
            drive::drive(s.flush(), 0, host, fuel),
            e,
        ),
{
    let quiet = s.with_scheduled(false);
    valid::lemma_local_keeps(s, quiet);
    assert(quiet.local.frames.take(0) =~= s.local.frames);
    assert forall|h: SignalId| #[trigger] quiet.subscribers(h) == s.subscribers(h) by {}
    lemma_fewer_settled(s, quiet);
    law_process_all_leaves_nobody_stale(quiet, host, fuel, g, e);
}

} // verus!
