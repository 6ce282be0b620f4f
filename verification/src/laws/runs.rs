//! Runs: when a callback is called, what precedes it and what follows it.
use vstd::prelude::*;

use crate::arena::effect_arena::EffectFn;
use crate::arena::effect_arena::EffectId;
use crate::arena::effect_arena::ReactiveState;
use crate::arena::signal_arena::SignalId;
use crate::laws::change;
use crate::laws::links;
use crate::laws::parts;
use crate::laws::push;
use crate::laws::steps;
use crate::laws::tree;
use crate::laws::valid;
use crate::model;
use crate::model::facts;
use crate::model::graph;
use crate::model::EffectModel;
use crate::model::FrameModel;
use crate::model::LocalModel;
use crate::model::RunKind;
use crate::model::State;
use crate::runtime::Action;

verus! {

/// A run of an effect that only a stale one needs.
pub open spec fn only_stale(kind: RunKind) -> bool {
    kind == RunKind::Single || kind == RunKind::SingleThenMark
}

/// A callback is called if the effect is live and its callback is there, and, in a run that
/// only a stale effect needs, if the effect is not Clean. In no other case.
pub proof fn law_who_is_called(s: State, e: EffectId, kind: RunKind)
    ensures
        ({
            let called = s.has_effect(e) && s.effect(e).callback is Some && (only_stale(kind)
                ==> s.effect(e).state !is Clean);
            &&& s.calls(e, kind) <==> called
            &&& called ==> s.start(e, kind).step().1 == Action::Run(e, s.effect(e).callback->0)
            &&& !called ==> s.start(e, kind).step().1 is Continue
            &&& s.start(e, kind).step() == s.begin_run(e, kind)
        }),
{
    let begun = s.start(e, kind);
    assert(begun.pop_frame().local.frames =~= s.local.frames);
    assert(begun.pop_frame() == s);
    match kind {
        RunKind::Bare => {},
        RunKind::Initial => {},
        RunKind::Now => {},
        RunKind::Single => {},
        RunKind::SingleThenMark => {},
    }
}

/// While a callback runs, it is out of the arena and noted as running, together with the
/// effect that was current before. The effect itself is current, unless the run is a bare
/// one. No other effect changes, nothing comes to be pending or stops to be, and the thread
/// is otherwise as it was.
pub proof fn law_call_touches_nothing_else(s: State, e: EffectId, kind: RunKind)
    requires
        s.calls(e, kind),
    ensures
        ({
            let t = s.begin_run(e, kind).0;
            &&& t == (State {
                effects: t.effects,
                signals: t.signals,
                writers: t.writers,
                local: LocalModel {
                    current: if kind == RunKind::Bare {
                        s.local.current
                    } else {
                        Some(e)
                    },
                    frames: s.local.frames.push(
                        FrameModel::Running { effect: e, previous: s.local.current, kind },
                    ),
                    ..s.local
                },
                ..s
            })
            &&& forall|x: EffectId| #[trigger] t.has_effect(x) <==> s.has_effect(x)
            &&& forall|x: EffectId|
                x != e && #[trigger] s.has_effect(x) ==> t.effect(x) == s.effect(x)
            &&& t.effect(e) == (EffectModel {
                callback: None,
                state: t.state_of(e),
                signals: t.links(e),
                ..s.effect(e)
            })
            &&& forall|g: SignalId| #[trigger] t.has_signal(g) <==> s.has_signal(g)
        }),
{
    let t = s.begin_run(e, kind).0;
    assert forall|g: SignalId| #[trigger] t.has_signal(g) <==> s.has_signal(g) by {
        parts::law_unsubscribe_all(s, e);
        assert(s.unsubscribe(e).has_signal(g) <==> s.has_signal(g));
        assert(s.set_state(e, ReactiveState::Clean).unsubscribe(e).has_signal(g)
            <==> s.has_signal(g)) by {
            parts::law_unsubscribe_all(s.set_state(e, ReactiveState::Clean), e);
        }
        match kind {
            RunKind::Bare => {},
            RunKind::Initial => {},
            RunKind::Now => {},
            RunKind::Single => {},
            RunKind::SingleThenMark => {},
        }
    }
    match kind {
        RunKind::Bare => {},
        RunKind::Initial => {},
        RunKind::Now => {},
        RunKind::Single => {},
        RunKind::SingleThenMark => {},
    }
}

/// A bare run and the first run of a computed value forget nothing: the state of the effect,
/// its links, and all subscriptions and writers are as they were.
pub proof fn law_first_computation_forgets_nothing(s: State, e: EffectId, kind: RunKind)
    requires
        kind == RunKind::Bare || kind == RunKind::Initial,
        s.calls(e, kind),
    ensures
        ({
            let t = s.begin_run(e, kind).0;
            &&& t.signals == s.signals
            &&& t.writers == s.writers
            &&& t.effect(e) == (EffectModel { callback: None, ..s.effect(e) })
        }),
{
}

/// Before the first run of an effect its old reads are forgotten on both sides, and no other
/// subscription; what it writes, who writes what, and its state stay as they are.
pub proof fn law_first_run_forgets_reads(s: State, e: EffectId)
    requires
        s.calls(e, RunKind::Now),
    ensures
        ({
            let t = s.begin_run(e, RunKind::Now).0;
            &&& forall|g: SignalId| !#[trigger] t.has_source(e, g)
            &&& forall|g: SignalId, x: EffectId| #[trigger]
                t.subscribers(g).contains(x) <==> s.subscribers(g).contains(x) && !(x == e
                    && s.has_source(e, g))
            &&& forall|g: SignalId| #[trigger]
                links::writes(t.links(e), g) <==> links::writes(s.links(e), g)
            &&& t.writers == s.writers
            &&& t.state_of(e) == s.state_of(e)
        }),
{
    let t = s.begin_run(e, RunKind::Now).0;
    let off = s.unsubscribe(e);
    parts::law_unsubscribe_all(s, e);
    links::law_unlink_sources(s.links(e));
    assert(off.links(e) == s.links(e));
    assert(t.links(e) == model::unlink_sources(s.links(e)));
    assert forall|g: SignalId, x: EffectId| #[trigger]
        t.subscribers(g).contains(x) <==> s.subscribers(g).contains(x) && !(x == e && s.has_source(
            e,
            g,
        )) by {
        assert(t.subscribers(g) == off.subscribers(g));
    }
}

/// Before a stale effect runs again, what it read is forgotten on both sides, and what it
/// wrote too, but for the signal of a computed value. No other subscription is forgotten,
/// and no other writer. The effect is Clean.
pub proof fn law_rerun_forgets_its_last_run(s: State, e: EffectId, kind: RunKind)
    requires
        only_stale(kind),
        s.calls(e, kind),
    ensures
        ({
            let t = s.begin_run(e, kind).0;
            &&& t.state_of(e) is Clean
            &&& forall|g: SignalId| !#[trigger] t.has_source(e, g)
            &&& forall|g: SignalId, x: EffectId| #[trigger]
                t.subscribers(g).contains(x) <==> s.subscribers(g).contains(x) && !(x == e
                    && s.has_source(e, g))
            &&& forall|g: SignalId, x: EffectId| #[trigger]
                t.writers_of(g).contains(x) <==> s.writers_of(g).contains(x) && !(x == e
                    && writes_by_running(s.links(e), g))
        }),
{
    let t = s.begin_run(e, kind).0;
    let clean = s.set_state(e, ReactiveState::Clean);
    let off = clean.unsubscribe(e);
    let written = model::written_of(s.links(e));
    let apart = State { writers: graph::unwritten(clean.writers, written, e), ..off };
    assert(clean.links(e) == s.links(e));
    parts::law_unsubscribe_all(clean, e);
    tree::lemma_unregistered(off, written, e);
    links::law_own_links(s.links(e));
    assert(t.links(e) == model::own_links(s.links(e)));
    assert forall|g: SignalId, x: EffectId| #[trigger]
        t.subscribers(g).contains(x) <==> s.subscribers(g).contains(x) && !(x == e && s.has_source(
            e,
            g,
        )) by {
        assert(t.subscribers(g) == off.subscribers(g));
        assert(clean.subscribers(g) == s.subscribers(g));
        assert(clean.has_source(e, g) == s.has_source(e, g));
        assert(off.subscribers(g).contains(x) <==> clean.subscribers(g).contains(x) && !(x == e
            && clean.has_source(e, g)));
    }
    assert forall|g: SignalId, x: EffectId| #[trigger]
        t.writers_of(g).contains(x) <==> s.writers_of(g).contains(x) && !(x == e
            && writes_by_running(s.links(e), g)) by {
        assert(t.writers_of(g) == apart.writers_of(g));
        assert(off.writers_of(g) == s.writers_of(g));
        lemma_written(s.links(e), g);
    }
}

/// `links` says that `g` is written by what the effect does.
pub open spec fn writes_by_running(l: Seq<model::Link>, g: SignalId) -> bool {
    exists|i: int|
        0 <= i < l.len() && (#[trigger] l[i]).0 == g && l[i].1.is_output && !l[i].1.is_own
}

/// The signals that are written by what an effect does.
proof fn lemma_written(l: Seq<model::Link>, g: SignalId)
    ensures
        model::written_of(l).contains(g) <==> writes_by_running(l, g),
    decreases l.len(),
{
    if l.len() == 0 {
        reveal(Seq::filter);
    } else {
        let a = l.drop_last();
        let last = l.last();
        lemma_written(a, g);
        assert(l =~= a + seq![last]);
        links::law_signals_link_by_link(a, seq![last], last);
        let w = model::written_of(a);
        let v = model::written_of(seq![last]);
        assert((w + v).contains(g) <==> w.contains(g) || v.contains(g)) by {
            if w.contains(g) {
                let i = w.index_of(g);
                assert((w + v)[i] == g);
            }
            if v.contains(g) {
                let i = v.index_of(g);
                assert((w + v)[w.len() + i] == g);
            }
            if (w + v).contains(g) {
                let i = (w + v).index_of(g);
                if i < w.len() {
                    assert(w[i] == g);
                } else {
                    assert(v[i - w.len()] == g);
                }
            }
        }
        if last.1.is_output && !last.1.is_own && last.0 == g {
            assert(v[0] == g);
            assert(l[l.len() - 1] == last);
        }
        if writes_by_running(a, g) {
            let i = choose|i: int|
                0 <= i < a.len() && (#[trigger] a[i]).0 == g && a[i].1.is_output
                    && !a[i].1.is_own;
            assert(l[i] == a[i]);
        }
        if writes_by_running(l, g) {
            let i = choose|i: int|
                0 <= i < l.len() && (#[trigger] l[i]).0 == g && l[i].1.is_output
                    && !l[i].1.is_own;
            if i < a.len() {
                assert(a[i] == l[i]);
            }
        }
    }
}

/// Where no callback is called, nothing begins and the current effect stays. A bare run and
/// a first computation change nothing. A run that only a stale effect needs leaves the
/// effect Clean; where it was asked for by an update, it is said that nothing has run.
pub proof fn law_no_call(s: State, e: EffectId, kind: RunKind)
    requires
        kind != RunKind::Now,
        !s.calls(e, kind),
    ensures
        ({
            let (t, action) = s.begin_run(e, kind);
            let clean = EffectModel { state: ReactiveState::Clean, ..s.effect(e) };
            &&& action is Continue
            &&& !only_stale(kind) ==> t == s
            &&& only_stale(kind) ==> {
                &&& t == (State {
                    effects: t.effects,
                    local: LocalModel {
                        updated: kind == RunKind::Single && s.local.updated,
                        ..s.local
                    },
                    ..s
                })
                &&& t.effects == if s.has_effect(e) {
                    s.effects.update(e.0 as int, Some(clean))
                } else {
                    s.effects
                }
            }
        }),
{
    match kind {
        RunKind::Bare => {},
        RunKind::Initial => {},
        RunKind::Now => {},
        RunKind::Single => {},
        RunKind::SingleThenMark => {},
    }
}

/// A first run of an effect whose callback is not there leaves the effect Clean, and its
/// reads forgotten on both sides; nothing else changes.
#[verifier::spinoff_prover]
pub proof fn law_no_first_run(s: State, e: EffectId)
    requires
        !s.calls(e, RunKind::Now),
    ensures
        ({
            let (t, action) = s.begin_run(e, RunKind::Now);
            &&& action is Continue
            &&& t == (State { effects: t.effects, signals: t.signals, ..s })
            &&& t.state_of(e) is Clean
            &&& forall|g: SignalId| !#[trigger] t.has_source(e, g)
            &&& forall|g: SignalId, x: EffectId| #[trigger]
                t.subscribers(g).contains(x) <==> s.subscribers(g).contains(x) && !(x == e
                    && s.has_source(e, g))
        }),
{
    let t = s.begin_run(e, RunKind::Now).0;
    let off = s.unsubscribe(e);
    let cleared = off.clear_sources(e);
    let clean = cleared.set_state(e, ReactiveState::Clean);
    assert(off.effects == s.effects);
    assert(t.effects == clean.effects && t.signals == off.signals);
    parts::law_unsubscribe_all(s, e);
    links::law_unlink_sources(s.links(e));
    assert(off.links(e) == s.links(e));
    if s.has_effect(e) {
        assert(cleared.links(e) == model::unlink_sources(s.links(e)));
        assert(clean.links(e) == cleared.links(e));
        assert(t.links(e) == clean.links(e));
    }
    assert forall|g: SignalId, x: EffectId| #[trigger]
        t.subscribers(g).contains(x) <==> s.subscribers(g).contains(x) && !(x == e && s.has_source(
            e,
            g,
        )) by {
        assert(t.subscribers(g) == off.subscribers(g));
    }
}

// ---------------------------------------------------------------------------
// What follows a callback
// ---------------------------------------------------------------------------

/// A callback that returns is put back, the effect that was current before is current again
/// and the activity is over. After a bare run, a first computation and a single run nothing
/// else has changed; after a first run the effect is also Clean.
pub proof fn law_return_touches_nothing_else(
    u: State,
    e: EffectId,
    previous: Option<EffectId>,
    kind: RunKind,
    f: EffectFn,
)
    requires
        u.local.frames.len() > 0,
        u.local.frames.last() == (FrameModel::Running { effect: e, previous, kind }),
        kind != RunKind::SingleThenMark,
    ensures
        ({
            let t = u.finish_callback(f);
            &&& t == (State {
                effects: t.effects,
                local: LocalModel {
                    current: previous,
                    frames: u.local.frames.drop_last(),
                    ..u.local
                },
                ..u
            })
            &&& forall|x: EffectId| #[trigger] t.has_effect(x) <==> u.has_effect(x)
            &&& forall|x: EffectId|
                x != e && #[trigger] u.has_effect(x) ==> t.effect(x) == u.effect(x)
            &&& u.has_effect(e) ==> t.effect(e) == (EffectModel {
                callback: Some(f),
                state: if kind == RunKind::Now {
                    ReactiveState::Clean
                } else {
                    u.state_of(e)
                },
                ..u.effect(e)
            })
        }),
{
    match kind {
        RunKind::Bare => {},
        RunKind::Initial => {},
        RunKind::Now => {},
        RunKind::Single => {},
        RunKind::SingleThenMark => {},
    }
}

/// `x` waits to know whether something that it reads has changed, and `e` has written that.
pub open spec fn waits_for(u: State, e: EffectId, x: EffectId) -> bool {
    &&& x != e
    &&& u.state_of(x) is Check
    &&& exists|i: int|
        {
            &&& 0 <= i < u.links(e).len()
            &&& (#[trigger] u.links(e)[i]).1.is_output
            &&& !u.links(e)[i].1.is_own
            &&& u.subscribers(u.links(e)[i].0).contains(x)
            &&& !(u.links(e)[i].1.from_ui && u.is_ui_only(x))
        }
}

/// `x` descends from one who waits for what `e` has written.
pub open spec fn below_waiting(u: State, e: EffectId, x: EffectId) -> bool {
    exists|y: EffectId| waits_for(u, e, y) && #[trigger] tree::descends(u.children, y, x)
}

/// Those who are told after a run are those who wait for what it has written.
proof fn lemma_told_are_those_who_wait(
    u: State,
    e: EffectId,
    previous: Option<EffectId>,
    f: EffectFn,
    x: EffectId,
)
    ensures
        ({
            let back = u.pop_frame().put_callback(e, Some(f)).with_current(previous);
            back.told_after(e).contains(x) <==> waits_for(u, e, x)
        }),
{
    let back = u.pop_frame().put_callback(e, Some(f)).with_current(previous);
    let list = back.told_after(e);
    assert(back.state_of(x) == u.state_of(x));
    assert(back.is_ui_only(x) == u.is_ui_only(x));
    assert(back.links(e) == u.links(e));
    assert forall|g: SignalId| #[trigger] back.subscribers(g) == u.subscribers(g) by {}
    steps::law_told_after_a_run(back, e, x);
    if waits_for(u, e, x) {
        let i = choose|i: int|
            {
                &&& 0 <= i < u.links(e).len()
                &&& (#[trigger] u.links(e)[i]).1.is_output
                &&& !u.links(e)[i].1.is_own
                &&& u.subscribers(u.links(e)[i].0).contains(x)
                &&& !(u.links(e)[i].1.from_ui && u.is_ui_only(x))
            };
        assert(back.links(e)[i].1.is_output);
    }
    if list.contains(x) {
        let i = choose|i: int|
            {
                &&& 0 <= i < back.links(e).len()
                &&& (#[trigger] back.links(e)[i]).1.is_output
                &&& !back.links(e)[i].1.is_own
                &&& back.subscribers(back.links(e)[i].0).contains(x)
                &&& !(back.links(e)[i].1.from_ui && back.is_ui_only(x))
            };
        assert(u.links(e)[i].1.is_output);
    }
}

/// When the run that an update asked for is over, whoever waits for what the effect has
/// written is Dirty and pending, unless it is destroyed; nobody else becomes Dirty. The
/// callback is put back, the effect that was current before is current again, the activity
/// is over and it is said that the effect has run. Who lives on keeps its ties, and all but
/// its state, and comes to be pending only if that changes; who does not, descends from one
/// who waited.
#[verifier::spinoff_prover]
pub proof fn law_return_tells_who_waits(
    u: State,
    e: EffectId,
    previous: Option<EffectId>,
    f: EffectFn,
)
    requires
        u.wf(),
        u.local.frames.len() > 0,
        u.local.frames.last() == (FrameModel::Running {
            effect: e,
            previous,
            kind: RunKind::SingleThenMark,
        }),
    ensures
        ({
            let t = u.finish_callback(f);
            &&& forall|x: EffectId| #[trigger]
                t.has_effect(x) && waits_for(u, e, x) ==> t.state_of(x) is Dirty
                    && t.pending.contains(x)
            &&& forall|x: EffectId| #[trigger]
                t.has_effect(x) && t.state_of(x) is Dirty && u.state_of(x) !is Dirty ==> waits_for(
                    u,
                    e,
                    x,
                )
            &&& forall|x: EffectId| #[trigger]
                t.has_effect(x) ==> u.has_effect(x) && t.effect(x) == (EffectModel {
                    state: t.state_of(x),
                    callback: if x == e {
                        Some(f)
                    } else {
                        u.effect(x).callback
                    },
                    ..u.effect(x)
                })
            &&& change::same_ties(u, t)
            &&& forall|x: EffectId| #[trigger] change::pending_if_marked(u, t, x)
            &&& forall|x: EffectId|
                u.has_effect(x) && !#[trigger] t.has_effect(x) ==> below_waiting(u, e, x)
            &&& t.signal_gens == u.signal_gens
            &&& t.active == u.active
            &&& t.attached == u.attached
            &&& t.notice == u.notice
            &&& t.local == (LocalModel {
                current: previous,
                frames: u.local.frames.drop_last(),
                updated: true,
                ..u.local
            })
        }),
{
    let popped = u.pop_frame();
    let put = popped.put_callback(e, Some(f));
    let back = put.with_current(previous);
    let list = back.told_after(e);
    let n = back.mark_outputs(e);
    let t = u.finish_callback(f);
    valid::lemma_local_keeps(u, popped);
    valid::lemma_put_callback_keeps(popped, e, Some(f));
    valid::lemma_local_keeps(put, back);
    push::lemma_notify_list(back, list, false);
    change::lemma_notify_ties(back, list, false);
    change::lemma_notify_pending(back, list, false);
    assert forall|x: EffectId| #[trigger] t.has_effect(x) == n.has_effect(x) by {}
    assert forall|x: EffectId| #[trigger] back.has_effect(x) == u.has_effect(x) by {}
    assert forall|x: EffectId| #[trigger] back.state_of(x) == u.state_of(x) by {}
    assert forall|x: EffectId| #[trigger] back.is_ui_only(x) == u.is_ui_only(x) by {}
    assert forall|g: SignalId| #[trigger] back.subscribers(g) == u.subscribers(g) by {}
    assert forall|g: SignalId| #[trigger] back.writers_of(g) == u.writers_of(g) by {}
    assert(back.links(e) == u.links(e));
    assert forall|x: EffectId| #[trigger] list.contains(x) <==> waits_for(u, e, x) by {
        lemma_told_are_those_who_wait(u, e, previous, f, x);
    }
    assert forall|x: EffectId| #[trigger] t.has_effect(x) && waits_for(u, e, x) implies t.state_of(
        x,
    ) is Dirty && t.pending.contains(x) by {
        assert(n.has_effect(x));
        assert(push::told(back, list, false, x));
        assert(n.state_of(x) is Dirty);
        assert(n.state_of(x) != back.state_of(x));
    }
    assert forall|x: EffectId| #[trigger]
        t.has_effect(x) && t.state_of(x) is Dirty && u.state_of(x) !is Dirty implies waits_for(
        u,
        e,
        x,
    ) by {
        assert(n.has_effect(x));
        assert(n.state_of(x) != back.state_of(x));
        assert(push::told(back, list, false, x));
    }
    assert forall|x: EffectId| #[trigger] t.has_effect(x) implies u.has_effect(x) && t.effect(x)
        == (EffectModel {
        state: t.state_of(x),
        callback: if x == e {
            Some(f)
        } else {
            u.effect(x).callback
        },
        ..u.effect(x)
    }) by {
        assert(n.has_effect(x));
        assert(back.has_effect(x));
        if x != e && u.has_effect(e) {
            assert(x.0 != e.0);
        }
    }
    assert forall|x: EffectId| #[trigger] change::pending_if_marked(u, t, x) by {
        assert(change::pending_if_marked(back, n, x));
        assert(t.state_of(x) == n.state_of(x));
        assert(back.state_of(x) == u.state_of(x));
    }
    assert forall|x: EffectId|
        u.has_effect(x) && !#[trigger] t.has_effect(x) implies below_waiting(u, e, x) by {
        assert(back.has_effect(x) && !n.has_effect(x));
        let y = choose|y: EffectId|
            push::told(back, list, false, y) && back.has_effect(y) && #[trigger] tree::descends(
                back.children,
                y,
                x,
            );
        assert(list.contains(y));
        assert(tree::descends(u.children, y, x));
    }
    assert(change::same_ties(u, t)) by {
        assert forall|g: SignalId, x: EffectId| t.has_effect(x) implies (#[trigger] t.subscribers(
            g,
        ).contains(x) <==> u.subscribers(g).contains(x)) by {
            assert(n.has_effect(x));
            assert(t.subscribers(g) == n.subscribers(g));
            assert(n.subscribers(g).contains(x) <==> back.subscribers(g).contains(x));
        }
        assert forall|g: SignalId, x: EffectId| t.has_effect(x) implies (#[trigger] t.writers_of(
            g,
        ).contains(x) <==> u.writers_of(g).contains(x)) by {
            assert(n.has_effect(x));
            assert(t.writers_of(g) == n.writers_of(g));
            assert(n.writers_of(g).contains(x) <==> back.writers_of(g).contains(x));
        }
        assert forall|x: EffectId| t.has_effect(x) implies (#[trigger] t.parents.contains_key(x)
            <==> u.parents.contains_key(x)) by {
            assert(n.has_effect(x));
            assert(n.parents.contains_key(x) <==> back.parents.contains_key(x));
        }
        assert forall|x: EffectId|
            t.has_effect(x) && #[trigger] t.parents.contains_key(x) implies t.parents[x]
            == u.parents[x] by {
            assert(n.has_effect(x));
            assert(n.parents.contains_key(x));
        }
    }
}

/// What is told after a run spreads on, however far down: along a chain that begins with one
/// who waits for what the effect has written, where each depends on the one before it and was
/// Clean, nobody is Clean after it.
pub proof fn law_return_reaches_downstream(
    u: State,
    e: EffectId,
    previous: Option<EffectId>,
    f: EffectFn,
    p: Seq<EffectId>,
    i: int,
)
    requires
        u.wf(),
        u.local.frames.len() > 0,
        u.local.frames.last() == (FrameModel::Running {
            effect: e,
            previous,
            kind: RunKind::SingleThenMark,
        }),
        p.len() >= 2,
        waits_for(u, e, p[0]),
        push::chain(u.finish_callback(f), p),
        forall|k: int|
            1 <= k < p.len() ==> u.state_of(#[trigger] p[k]) is Clean && u.finish_callback(
                f,
            ).has_effect(p[k]),
        1 <= i < p.len(),
    ensures
        u.finish_callback(f).state_of(p[i]) !is Clean,
{
    let popped = u.pop_frame();
    let put = popped.put_callback(e, Some(f));
    let back = put.with_current(previous);
    let list = back.told_after(e);
    let n = back.mark_outputs(e);
    let t = u.finish_callback(f);
    valid::lemma_local_keeps(u, popped);
    valid::lemma_put_callback_keeps(popped, e, Some(f));
    valid::lemma_local_keeps(put, back);
    lemma_told_are_those_who_wait(u, e, previous, f, p[0]);
    assert(push::told(back, list, false, p[0]));
    assert(push::chain(n, p)) by {
        assert forall|k: int| 0 <= k < p.len() - 1 implies n.successors(#[trigger] p[k]).contains(
            p[k + 1],
        ) by {
            facts::lemma_same_successors(n, t, p[k]);
            assert(t.successors(p[k]).contains(p[k + 1]));
        }
    }
    assert forall|k: int| 1 <= k < p.len() implies back.state_of(#[trigger] p[k]) is Clean
        && n.has_effect(p[k]) by {
        assert(u.state_of(p[k]) is Clean);
        assert(t.has_effect(p[k]) == n.has_effect(p[k]));
    }
    push::law_notify_reaches_downstream(back, list, false, p, i);
    assert(t.state_of(p[i]) == n.state_of(p[i]));
}

/// Those who wait are told link by link, in order: of each signal that the effect has
/// written, those of its subscribers who wait, in the order in which they subscribed.
pub proof fn law_told_link_by_link(s: State, e: EffectId, l: model::Link)
    requires
        s.has_effect(e),
    ensures
        s.put_links(e, Seq::empty()).told_after(e) == Seq::<EffectId>::empty(),
        s.put_links(e, s.links(e).push(l)).told_after(e) == s.told_after(e) + if l.1.is_output
            && !l.1.is_own {
            s.subscribers(l.0).filter(
                |x: EffectId|
                    x != e && s.state_of(x) is Check && !(l.1.from_ui && s.is_ui_only(x)),
            )
        } else {
            Seq::empty()
        },
{
    let none = s.put_links(e, Seq::empty());
    let t = s.put_links(e, s.links(e).push(l));
    assert(none.links(e) =~= Seq::<model::Link>::empty());
    facts::lemma_told_none(none, e);
    assert(t.links(e) == s.links(e).push(l));
    assert forall|x: EffectId| #[trigger] t.state_of(x) == s.state_of(x) by {}
    assert forall|x: EffectId| #[trigger] t.is_ui_only(x) == s.is_ui_only(x) by {}
    assert forall|g: SignalId| #[trigger] t.subscribers(g) == s.subscribers(g) by {}
    assert forall|k: model::Link| #[trigger] t.told_over(e, k) == s.told_over(e, k) by {
        assert(t.hears(e, k.1.from_ui) =~= s.hears(e, k.1.from_ui));
    }
    let over_t = |k: model::Link| t.told_over(e, k);
    let over_s = |k: model::Link| s.told_over(e, k);
    assert(over_t =~= over_s);
    facts::lemma_told_push(s, e, s.links(e), l);
    let waits = |x: EffectId|
        x != e && s.state_of(x) is Check && !(l.1.from_ui && s.is_ui_only(x));
    assert(s.hears(e, l.1.from_ui) =~= waits);
}

/// A callback that fails is put back, the effect that was current before is current again,
/// the activity is over, and nothing else has changed: nobody is told of what was written.
pub proof fn law_failure_touches_nothing_else(
    u: State,
    e: EffectId,
    previous: Option<EffectId>,
    kind: RunKind,
    f: EffectFn,
)
    requires
        u.local.frames.len() > 0,
        u.local.frames.last() == (FrameModel::Running { effect: e, previous, kind }),
    ensures
        ({
            let t = u.abort_callback(f);
            &&& t == (State {
                effects: t.effects,
                local: LocalModel {
                    current: previous,
                    frames: u.local.frames.drop_last(),
                    ..u.local
                },
                ..u
            })
            &&& forall|x: EffectId| #[trigger] t.has_effect(x) <==> u.has_effect(x)
            &&& forall|x: EffectId|
                x != e && #[trigger] u.has_effect(x) ==> t.effect(x) == u.effect(x)
            &&& u.has_effect(e) ==> t.effect(e) == (EffectModel {
                callback: Some(f),
                ..u.effect(e)
            })
        }),
{
}

/// A callback that is handed back while none runs changes nothing; nor does the time that is
/// told while nobody has asked for it.
pub proof fn law_answers_without_a_question(s: State, f: EffectFn, elapsed: u128)
    ensures
        s.local.frames.len() == 0 || !(s.local.frames.last() is Running) ==> s.finish_callback(f)
            == s && s.abort_callback(f) == s,
        s.step().1 !is Clock ==> s.clock(elapsed) == s,
{
    let p = s.pop_frame();
    if s.local.frames.len() > 0 {
        match s.local.frames.last() {
            FrameModel::Update { effect, skip } => {
                steps::lemma_begin_run_frames(p, effect, RunKind::SingleThenMark);
            },
            _ => {},
        }
    }
}

// ---------------------------------------------------------------------------
// Other steps
// ---------------------------------------------------------------------------

/// A subscription that was waiting for the signal to be brought up to date is made, and
/// nothing else happens.
pub proof fn law_track_step(s: State, g: SignalId, e: Option<EffectId>)
    requires
        s.local.frames.len() > 0,
        s.local.frames.last() == (FrameModel::Track { signal: g, effect: e }),
    ensures
        ({
            let (t, action) = s.step();
            &&& action is Continue
            &&& t == (State {
                effects: t.effects,
                signals: t.signals,
                local: LocalModel { frames: s.local.frames.drop_last(), ..s.local },
                ..s
            })
            &&& e is None ==> t.effects == s.effects && t.signals == s.signals
            &&& forall|h: SignalId, x: EffectId| #[trigger]
                t.subscribers(h).contains(x) <==> s.subscribers(h).contains(x) || (e == Some(x) && h
                    == g && s.has_signal(g))
            &&& forall|x: EffectId, h: SignalId| #[trigger]
                t.has_source(x, h) <==> s.has_source(x, h) || (e == Some(x) && h == g
                    && s.has_effect(x))
        }),
{
    let p = s.pop_frame();
    let t = s.step().0;
    assert forall|h: SignalId| #[trigger] p.subscribers(h) == s.subscribers(h) by {}
    assert forall|x: EffectId, h: SignalId| #[trigger] p.has_source(x, h) == s.has_source(x, h) by {}
    if let Some(x) = e {
        parts::law_track_touches_nothing_else(p, g, x);
        assert forall|h: SignalId, y: EffectId| #[trigger]
            t.subscribers(h).contains(y) <==> s.subscribers(h).contains(y) || (e == Some(y) && h
                == g && s.has_signal(g)) by {
            assert(p.subscribers(h) == s.subscribers(h));
        }
        assert forall|y: EffectId, h: SignalId| #[trigger]
            t.has_source(y, h) <==> s.has_source(y, h) || (e == Some(y) && h == g && s.has_effect(
                y,
            )) by {
            assert(p.has_source(y, h) == s.has_source(y, h));
        }
    }
}

/// What is to be scheduled after a transaction is scheduled, and nothing else happens.
pub proof fn law_schedule_step(s: State)
    requires
        s.local.frames.len() > 0,
        s.local.frames.last() is Schedule,
    ensures
        s.step().1 is Continue,
        s.step().0 == (State {
            notice: s.notice || s.attached,
            local: LocalModel {
                scheduled: true,
                frames: s.local.frames.drop_last(),
                ..s.local
            },
            ..s
        }),
{
}

/// The steps of a flush, a pull and a flush with a budget change nothing but the activities,
/// the pending set where a flush takes it, and the results where a flush ends.
pub proof fn law_steps_that_run_nothing(s: State)
    requires
        s.local.frames.len() > 0,
        s.local.frames.last() is Flush || s.local.frames.last() is Pull
            || s.local.frames.last() is Budget,
    ensures
        ({
            let (t, action) = s.step();
            &&& action is Continue || action is Clock
            &&& t == (State {
                pending: t.pending,
                local: LocalModel {
                    frames: t.local.frames,
                    processed: t.local.processed,
                    budget: t.local.budget,
                    ..s.local
                },
                ..s
            })
            &&& !(s.local.frames.last() is Flush) ==> t.pending == s.pending && t.local.processed
                == s.local.processed
            &&& !(s.local.frames.last() is Budget) ==> t.local.budget == s.local.budget
            &&& t.local.frames.len() >= s.local.frames.len() ==> t.local.processed
                == s.local.processed && t.local.budget == s.local.budget
        }),
{
}

} // verus!
