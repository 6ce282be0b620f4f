//! Effects in state Check, from the beginning of their update to its end: none of their
//! sources is left out.
use vstd::prelude::*;

use crate::arena::effect_arena::EffectFn;
use crate::arena::effect_arena::EffectId;
use crate::arena::effect_arena::ReactiveState;
use crate::arena::signal_arena::SignalId;
use crate::laws::drive;
use crate::laws::drive::Host;
use crate::laws::push;
use crate::laws::steps;
use crate::laws::tree;
use crate::laws::valid;
use crate::model;
use crate::model::facts;
use crate::model::EffectModel;
use crate::model::FrameModel;
use crate::model::LocalModel;
use crate::model::RunKind;
use crate::model::State;
use crate::runtime::Action;

verus! {

// ---------------------------------------------------------------------------
// One step
// ---------------------------------------------------------------------------

/// The update of an effect in state Check begins with the first of its sources, and changes
/// nothing else.
pub proof fn law_check_begins_with_the_sources(s: State, e: EffectId, skip: bool)
    requires
        s.state_of(e) is Check,
    ensures
        ({
            let (t, action) = s.update(e, skip).step();
            &&& action is Continue
            &&& t.local.frames.len() == s.local.frames.len() + 1
            &&& t.local.frames.drop_last() == s.local.frames
            &&& t == (State {
                local: LocalModel { frames: t.local.frames, ..s.local },
                ..s
            })
            &&& match t.local.frames.last() {
                FrameModel::Verify { effect, sources, next, skip: k } => {
                    &&& effect == e
                    &&& next == 0
                    &&& k == skip
                    &&& forall|g: SignalId| #[trigger]
                        sources.contains(g) <==> s.has_source(e, g)
                },
                _ => false,
            }
        }),
{
    let begun = s.update(e, skip);
    let t = begun.step().0;
    assert(begun.pop_frame().local.frames =~= s.local.frames);
    assert(begun.pop_frame() == s);
    assert(t.local.frames.drop_last() =~= s.local.frames);
    assert forall|g: SignalId| #[trigger] s.sources(e).contains(g) <==> s.has_source(e, g) by {
        facts::lemma_reads_source(s.links(e), g);
    }
}

/// As long as an effect is not Dirty and has a source that has not been looked at, the
/// next one is pulled: all its writers are to be updated, on behalf of the same current
/// effect and with the same regard for those that can be skipped. Nothing is decided yet:
/// no state changes, and nothing runs.
pub proof fn law_verify_pulls_the_next_source(
    s: State,
    e: EffectId,
    sources: Seq<SignalId>,
    next: nat,
    skip: bool,
)
    requires
        s.local.frames.len() > 0,
        s.local.frames.last() == (FrameModel::Verify { effect: e, sources, next, skip }),
        next < sources.len(),
        s.state_of(e) !is Dirty,
    ensures
        ({
            let (t, action) = s.step();
            let g = sources[next as int];
            &&& action is Continue
            &&& t.local.frames == s.local.frames.drop_last().push(
                FrameModel::Verify { effect: e, sources, next: next + 1, skip },
            ).push(
                FrameModel::Pull {
                    writers: s.writers_of(g),
                    next: 0,
                    current: s.local.current,
                    skip,
                },
            )
            &&& t == (State {
                local: LocalModel { frames: t.local.frames, ..s.local },
                ..s
            })
        }),
{
}

/// An effect that is Dirty when its next source would be looked at runs at once, if its
/// callback is there; the other sources do not matter any more.
pub proof fn law_verify_runs_the_dirty(
    s: State,
    e: EffectId,
    sources: Seq<SignalId>,
    next: nat,
    skip: bool,
)
    requires
        s.local.frames.len() > 0,
        s.local.frames.last() == (FrameModel::Verify { effect: e, sources, next, skip }),
        s.state_of(e) is Dirty,
        s.has_callback(e),
    ensures
        s.step().1 == Action::Run(e, s.effect(e).callback->0),
{
}

/// When all sources have been looked at, an effect that is still Check is Clean, and one that
/// has been brought up to date by somebody else stays so. Neither runs, which is said, and
/// nobody else changes.
pub proof fn law_verify_ends(
    s: State,
    e: EffectId,
    sources: Seq<SignalId>,
    next: nat,
    skip: bool,
)
    requires
        s.local.frames.len() > 0,
        s.local.frames.last() == (FrameModel::Verify { effect: e, sources, next, skip }),
        next >= sources.len(),
        s.state_of(e) !is Dirty,
    ensures
        ({
            let (t, action) = s.step();
            &&& action is Continue
            &&& t.state_of(e) is Clean
            &&& forall|x: EffectId| #[trigger] t.has_effect(x) <==> s.has_effect(x)
            &&& forall|x: EffectId|
                x != e && #[trigger] s.has_effect(x) ==> t.effect(x) == s.effect(x)
            &&& s.has_effect(e) ==> t.effect(e) == (EffectModel {
                state: ReactiveState::Clean,
                ..s.effect(e)
            })
            &&& t == (State {
                effects: t.effects,
                local: LocalModel {
                    frames: s.local.frames.drop_last(),
                    updated: false,
                    ..s.local
                },
                ..s
            })
        }),
{
    let p = s.pop_frame();
    if s.state_of(e) is Clean {
        assert(!p.calls(e, RunKind::SingleThenMark));
    }
}

// ---------------------------------------------------------------------------
// Writers that wait
// ---------------------------------------------------------------------------

/// A callback takes nobody out of the writers of a signal who waits to run, unless that one
/// runs inside or is destroyed; and it does not change whether it can be skipped.
pub open spec fn keeps_writers(host: Host) -> bool {
    forall|s: State, e: EffectId, f: EffectFn, x: EffectId, g: SignalId|
        #![trigger (host.run)(s, e, f).0.has_effect(x), s.writers_of(g)]
        {
            let t = (host.run)(s, e, f).0;
            drive::awaits_run(s, x) && t.has_effect(x) && !(host.inside)(s, e, f).contains(x) ==> {
                &&& s.writers_of(g).contains(x) ==> t.writers_of(g).contains(x)
                &&& t.is_skippable(x) == s.is_skippable(x)
            }
        }
}

/// `w` is a writer of `g` after as before, and can be skipped if it could before.
pub open spec fn still_writes(s: State, t: State, g: SignalId, w: EffectId) -> bool {
    &&& s.writers_of(g).contains(w) ==> t.writers_of(g).contains(w)
    &&& t.is_skippable(w) == s.is_skippable(w)
}

/// The beginning of the run of another effect leaves `w` a writer.
proof fn lemma_begin_keeps_writer(s: State, x: EffectId, kind: RunKind, g: SignalId, w: EffectId)
    requires
        x != w,
    ensures
        still_writes(s, s.begin_run(x, kind).0, g, w),
{
    let t = s.begin_run(x, kind).0;
    match kind {
        RunKind::Single | RunKind::SingleThenMark => {
            if s.wanted(x, kind) {
                let off = s.set_state(x, ReactiveState::Clean).unsubscribe(x);
                let written = model::written_of(s.links(x));
                tree::lemma_unregistered(off, written, x);
                let apart = State {
                    writers: model::graph::unwritten(off.writers, written, x),
                    ..off
                };
                assert(s.set_state(x, ReactiveState::Clean).links(x) == s.links(x));
                assert(off.writers_of(g) == s.writers_of(g));
                assert(t.writers_of(g) == apart.writers_of(g));
            } else {
                assert(t.writers_of(g) == s.writers_of(g));
            }
        },
        _ => {
            assert(t.writers_of(g) == s.writers_of(g));
        },
    }
}

/// So does what follows a callback, unless it destroys `w`.
proof fn lemma_finish_keeps_writer(u: State, f: EffectFn, g: SignalId, w: EffectId)
    requires
        u.wf(),
        u.finish_callback(f).has_effect(w),
    ensures
        u.has_effect(w),
        still_writes(u, u.finish_callback(f), g, w),
{
    if u.local.frames.len() > 0 {
        if let FrameModel::Running { effect, previous, kind } = u.local.frames.last() {
            let popped = u.pop_frame();
            let put = popped.put_callback(effect, Some(f));
            let back = put.with_current(previous);
            valid::lemma_local_keeps(u, popped);
            valid::lemma_put_callback_keeps(popped, effect, Some(f));
            valid::lemma_local_keeps(put, back);
            assert(back.writers_of(g) == u.writers_of(g));
            assert(back.is_skippable(w) == u.is_skippable(w));
            assert(back.has_effect(w) == u.has_effect(w));
            if kind == RunKind::SingleThenMark {
                let marked = back.mark_outputs(effect);
                let t = u.finish_callback(f);
                push::lemma_notify_list(back, back.told_after(effect), false);
                assert(t.writers_of(g) == marked.writers_of(g));
                assert(marked.has_effect(w));
                assert(marked.effect(w).skippable == back.effect(w).skippable);
            }
        }
    }
}

/// A whole run of an effect leaves `w` a writer, unless `w` runs or is destroyed.
proof fn lemma_run_keeps_writer(
    s: State,
    x: EffectId,
    kind: RunKind,
    host: Host,
    g: SignalId,
    w: EffectId,
)
    requires
        host.orderly(),
        host.careful(),
        keeps_writers(host),
        s.wf(),
        drive::awaits_run(s, w),
    ensures
        ({
            let (t, action) = s.begin_run(x, kind);
            match action {
                Action::Run(y, f) => {
                    let (u, h) = (host.run)(t, y, f);
                    let v = u.finish_callback(h);
                    let ran = seq![y] + (host.inside)(t, y, f);
                    ran.contains(w) || !v.has_effect(w) || still_writes(s, v, g, w)
                },
                _ => still_writes(s, t, g, w),
            }
        }),
{
    let (t, action) = s.begin_run(x, kind);
    steps::lemma_begin_run_frames(s, x, kind);
    valid::lemma_begin_run(s, x, kind);
    if s.calls(x, kind) {
        let f = s.effect(x).callback->0;
        let (u, h) = (host.run)(t, x, f);
        let v = u.finish_callback(h);
        let inside = (host.inside)(t, x, f);
        let ran = seq![x] + inside;
        assert(ran[0] == x);
        drive::lemma_contains_either(seq![x], inside, w);
        if !ran.contains(w) && v.has_effect(w) {
            assert(x != w);
            lemma_begin_keeps_writer(s, x, kind, g, w);
            assert(t.has_effect(w) && t.effect(w) == s.effect(w)) by {
                lemma_begin_leaves(s, x, kind, w);
            }
            assert(drive::awaits_run(t, w));
            assert((host.run)(t, x, f).0.has_effect(w) == u.has_effect(w));
            assert(u.wf()) by {
                assert((host.run)(t, x, f).0.has_effect(w) == u.has_effect(w));
            }
            lemma_finish_keeps_writer(u, h, g, w);
            assert(t.writers_of(g).contains(w) ==> u.writers_of(g).contains(w));
        }
    } else {
        if x == w {
            assert(s.wanted(x, kind) && s.has_callback(x));
        } else {
            lemma_begin_keeps_writer(s, x, kind, g, w);
        }
    }
}

/// The beginning of a run leaves other effects as they are.
proof fn lemma_begin_leaves(s: State, x: EffectId, kind: RunKind, w: EffectId)
    requires
        x != w,
        s.has_effect(w),
    ensures
        s.begin_run(x, kind).0.has_effect(w),
        s.begin_run(x, kind).0.effect(w) == s.effect(w),
{
    if s.has_effect(x) {
        assert(x.0 != w.0);
    }
    match kind {
        RunKind::Bare => {},
        RunKind::Initial => {},
        RunKind::Now => {},
        RunKind::Single => {},
        RunKind::SingleThenMark => {},
    }
}

/// One step of something inside an activity leaves `w` a writer, unless `w` runs or is
/// destroyed.
#[verifier::spinoff_prover]
proof fn lemma_inner_step_keeps_writer(s: State, host: Host, g: SignalId, w: EffectId)
    requires
        host.orderly(),
        host.careful(),
        keeps_writers(host),
        s.wf(),
        drive::awaits_run(s, w),
        s.local.frames.len() > 0,
        drive::tame(s.local.frames.last()),
    ensures
        ({
            let n = drive::advance(s, host);
            drive::runs_in(s, host).contains(w) || !n.has_effect(w) || still_writes(s, n, g, w)
        }),
{
    let p = s.pop_frame();
    let n = drive::advance(s, host);
    valid::lemma_local_keeps(s, p);
    assert(p.writers_of(g) == s.writers_of(g));
    assert(p.is_skippable(w) == s.is_skippable(w));
    match s.local.frames.last() {
        FrameModel::Update { effect, skip } => {
            lemma_run_keeps_writer(p, effect, RunKind::SingleThenMark, host, g, w);
            steps::lemma_begin_run_frames(p, effect, RunKind::SingleThenMark);
            if p.state_of(effect) !is Dirty {
                assert(n.writers_of(g) == p.writers_of(g));
            }
        },
        FrameModel::Verify { effect, sources, next, skip } => {
            lemma_run_keeps_writer(p, effect, RunKind::SingleThenMark, host, g, w);
            steps::lemma_begin_run_frames(p, effect, RunKind::SingleThenMark);
            if (next < sources.len() && p.state_of(effect) !is Dirty) || p.state_of(
                effect,
            ) is Check {
                assert(n.writers_of(g) == p.writers_of(g));
            }
        },
        FrameModel::Pull { writers, next, current, skip } => {
            assert(n.writers_of(g) == p.writers_of(g));
        },
        _ => {},
    }
}

// ---------------------------------------------------------------------------
// Pulls that skip
// ---------------------------------------------------------------------------

/// `w` waits in a pull, above `base` activities, that does not leave it out.
spec fn awaits_pull(s: State, base: nat, w: EffectId) -> bool {
    &&& s.local.frames.len() > base
    &&& drive::awaits_run(s, w)
    &&& match s.local.frames[base as int] {
        FrameModel::Pull { writers, next, current, skip } => {
            &&& !(skip && s.is_skippable(w))
            &&& current != Some(w)
            &&& drive::to_come(writers, next, w) || (s.local.frames.len() == base + 2
                && s.local.frames.last() == (FrameModel::Update { effect: w, skip }))
        },
        _ => false,
    }
}

/// One step of such a pull: `w` still waits in it, or has run, or is destroyed.
#[verifier::spinoff_prover]
proof fn lemma_pull_step(s: State, base: nat, host: Host, w: EffectId)
    requires
        host.orderly(),
        host.careful(),
        keeps_writers(host),
        s.wf(),
        drive::all_tame(s, base),
        awaits_pull(s, base, w),
    ensures
        ({
            let n = drive::advance(s, host);
            &&& n.wf()
            &&& drive::runs_in(s, host).contains(w) || !n.has_effect(w) || awaits_pull(n, base, w)
        }),
{
    let n = drive::advance(s, host);
    let rest = s.local.frames.drop_last();
    drive::lemma_advance(s, host);
    if s.local.frames.len() > base + 1 {
        assert(drive::tame(s.local.frames[s.local.frames.len() - 1]));
        assert(rest[base as int] == s.local.frames[base as int]);
        assert(n.local.frames[base as int] == rest[base as int]);
        drive::lemma_inner_step(s, host, w);
        lemma_inner_step_keeps_writer(s, host, arbitrary(), w);
        if s.local.frames.last() is Update && s.local.frames.last()->Update_effect == w {
            assert(drive::runs_in(s, host)[0] == w);
        }
    } else {
        assert(s.local.frames.last() == s.local.frames[base as int]);
        valid::law_step_keeps_validity(s);
        if let FrameModel::Pull { writers, next, current, skip } = s.local.frames.last() {
            let j = choose|j: int| next <= j < writers.len() && #[trigger] writers[j] == w;
            assert(rest.len() == base);
            assert(n.local.frames[base as int] == (FrameModel::Pull {
                writers,
                next: next + 1,
                current,
                skip,
            }));
            if j == next {
                assert(n.local.frames.last() == (FrameModel::Update { effect: w, skip }));
            } else {
                assert(drive::to_come(writers, next + 1, w));
            }
        }
    }
}

/// Whoever waits in such a pull has run when what is above `depth` activities is over.
#[verifier::spinoff_prover]
#[verifier::rlimit(40)]
proof fn lemma_pull_to_the_end(s: State, depth: nat, base: nat, host: Host, fuel: nat, w: EffectId)
    requires
        host.orderly(),
        host.careful(),
        keeps_writers(host),
        s.wf(),
        depth <= base,
        drive::all_tame(s, base),
        awaits_pull(s, base, w),
        drive::lives_on(s, depth, host, fuel, w),
        drive::drive(s, depth, host, fuel).local.frames.len() <= depth,
    ensures
        drive::runs(s, depth, host, fuel).contains(w),
    decreases fuel,
{
    assert(s.local.frames.len() > depth);
    assert(fuel > 0) by {
        if fuel == 0 {
            assert(drive::drive(s, depth, host, fuel) == s);
        }
    }
    let n = drive::advance(s, host);
    let first = drive::runs_in(s, host);
    let later = drive::runs(n, depth, host, (fuel - 1) as nat);
    assert(drive::runs(s, depth, host, fuel) == first + later);
    assert(drive::lives_on(n, depth, host, (fuel - 1) as nat, w));
    assert(n.has_effect(w));
    assert(drive::drive(s, depth, host, fuel) == drive::drive(n, depth, host, (fuel - 1) as nat));
    lemma_pull_step(s, base, host, w);
    drive::lemma_stays_tame(s, base, host);
    if !first.contains(w) {
        lemma_pull_to_the_end(n, depth, base, host, (fuel - 1) as nat, w);
    }
    drive::lemma_contains_either(first, later, w);
}

/// A pull runs every writer of the signal that is Dirty, has its callback, is not the
/// current effect, is not destroyed meanwhile and is not to be skipped, whether the pull
/// skips or not.
pub proof fn law_pull_runs_all_but_the_skipped(
    s: State,
    g: SignalId,
    skip: bool,
    host: Host,
    fuel: nat,
    w: EffectId,
)
    requires
        host.orderly(),
        host.careful(),
        keeps_writers(host),
        s.wf(),
        s.writers_of(g).contains(w),
        s.local.current != Some(w),
        drive::awaits_run(s, w),
        !(skip && s.is_skippable(w)),
        drive::lives_on(s.pull(g, skip), s.local.frames.len(), host, fuel, w),
        drive::drive(s.pull(g, skip), s.local.frames.len(), host, fuel).local.frames.len()
            <= s.local.frames.len(),
    ensures
        drive::runs(s.pull(g, skip), s.local.frames.len(), host, fuel).contains(w),
{
    let n = s.local.frames.len();
    let begun = s.pull(g, skip);
    valid::lemma_local_keeps(s, begun);
    let j = s.writers_of(g).index_of(w);
    assert(s.writers_of(g)[j] == w);
    assert(drive::to_come(s.writers_of(g), 0, w));
    lemma_pull_to_the_end(begun, n, n, host, fuel, w);
}

// ---------------------------------------------------------------------------
// The whole update
// ---------------------------------------------------------------------------

/// `e` is Dirty before and after none of the steps of `drive`.
pub open spec fn never_dirty(s: State, depth: nat, host: Host, fuel: nat, e: EffectId) -> bool
    decreases fuel,
{
    s.state_of(e) !is Dirty && (fuel == 0 || s.local.frames.len() <= depth || never_dirty(
        drive::advance(s, host),
        depth,
        host,
        (fuel - 1) as nat,
        e,
    ))
}

/// `g` is still to come in a list.
pub open spec fn source_to_come(list: Seq<SignalId>, next: nat, g: SignalId) -> bool {
    exists|j: int| next <= j < list.len() && #[trigger] list[j] == g
}

/// `w`, a writer of `g`, waits while the sources of `c` are looked at, above `base`
/// activities: `g` is still to come, or being pulled.
spec fn awaits_verify(s: State, base: nat, c: EffectId, g: SignalId, w: EffectId) -> bool {
    &&& s.local.frames.len() > base
    &&& drive::awaits_run(s, w)
    &&& s.local.current != Some(w)
    &&& match s.local.frames[base as int] {
        FrameModel::Update { effect, skip } => {
            &&& effect == c
            &&& s.local.frames.len() == base + 1
            &&& s.state_of(c) is Check
            &&& !(skip && s.is_skippable(w))
            &&& s.has_source(c, g)
            &&& s.writers_of(g).contains(w)
        },
        FrameModel::Verify { effect, sources, next, skip } => {
            &&& effect == c
            &&& !(skip && s.is_skippable(w))
            &&& (source_to_come(sources, next, g) && s.writers_of(g).contains(w)) || awaits_pull(
                s,
                base + 1,
                w,
            )
        },
        _ => false,
    }
}

/// One step of the update of an effect that is not Dirty: a writer that waits in it still
/// does, or has run, or is destroyed.
#[verifier::spinoff_prover]
#[verifier::rlimit(40)]
proof fn lemma_verify_step(s: State, base: nat, host: Host, c: EffectId, g: SignalId, w: EffectId)
    requires
        host.orderly(),
        host.careful(),
        keeps_writers(host),
        s.wf(),
        drive::all_tame(s, base),
        s.state_of(c) !is Dirty,
        awaits_verify(s, base, c, g, w),
    ensures
        ({
            let n = drive::advance(s, host);
            &&& n.wf()
            &&& drive::runs_in(s, host).contains(w) || !n.has_effect(w) || awaits_verify(
                n,
                base,
                c,
                g,
                w,
            )
        }),
{
    let n = drive::advance(s, host);
    let rest = s.local.frames.drop_last();
    let top = s.local.frames.last();
    drive::lemma_advance(s, host);
    if s.local.frames.len() > base + 1 {
        assert(drive::tame(s.local.frames[s.local.frames.len() - 1]));
        assert(rest[base as int] == s.local.frames[base as int]);
        assert(n.local.frames[base as int] == rest[base as int]);
        drive::lemma_inner_step(s, host, w);
        lemma_inner_step_keeps_writer(s, host, g, w);
        if awaits_pull(s, base + 1, w) {
            assert(drive::all_tame(s, base + 1));
            lemma_pull_step(s, base + 1, host, w);
        }
    } else {
        assert(top == s.local.frames[base as int]);
        assert(rest.len() == base);
        valid::law_step_keeps_validity(s);
        match top {
            FrameModel::Update { effect, skip } => {
                let p = s.pop_frame();
                assert(p.update(c, skip).local.frames =~= s.local.frames);
                assert(p.update(c, skip) == s);
                assert(p.has_source(c, g));
                law_check_begins_with_the_sources(p, c, skip);
                if let FrameModel::Verify { sources, .. } = n.local.frames.last() {
                    assert(sources.contains(g));
                    let j = sources.index_of(g);
                    assert(sources[j] == g);
                    assert(source_to_come(sources, 0, g));
                    assert(n.local.frames[base as int] == n.local.frames.last());
                    assert(n.writers_of(g) == s.writers_of(g));
                }
            },
            FrameModel::Verify { effect, sources, next, skip } => {
                let j = choose|j: int| next <= j < sources.len() && #[trigger] sources[j] == g;
                law_verify_pulls_the_next_source(s, c, sources, next, skip);
                assert(n.local.frames[base as int] == (FrameModel::Verify {
                    effect: c,
                    sources,
                    next: next + 1,
                    skip,
                }));
                assert(n.writers_of(g) == s.writers_of(g));
                if j == next {
                    let k = s.writers_of(g).index_of(w);
                    assert(s.writers_of(g)[k] == w);
                    assert(drive::to_come(s.writers_of(g), 0, w));
                    assert(n.local.frames[base as int + 1] == (FrameModel::Pull {
                        writers: s.writers_of(g),
                        next: 0,
                        current: s.local.current,
                        skip,
                    }));
                    assert(awaits_pull(n, base + 1, w));
                } else {
                    assert(source_to_come(sources, next + 1, g));
                }
            },
            _ => {},
        }
    }
}

/// Whoever waits in such an update has run when what is above `depth` activities is over.
#[verifier::spinoff_prover]
#[verifier::rlimit(40)]
proof fn lemma_verify_to_the_end(
    s: State,
    depth: nat,
    base: nat,
    host: Host,
    fuel: nat,
    c: EffectId,
    g: SignalId,
    w: EffectId,
)
    requires
        host.orderly(),
        host.careful(),
        keeps_writers(host),
        s.wf(),
        depth <= base,
        drive::all_tame(s, base),
        awaits_verify(s, base, c, g, w),
        drive::lives_on(s, depth, host, fuel, w),
        never_dirty(s, depth, host, fuel, c),
        drive::drive(s, depth, host, fuel).local.frames.len() <= depth,
    ensures
        drive::runs(s, depth, host, fuel).contains(w),
    decreases fuel,
{
    assert(s.local.frames.len() > depth);
    assert(fuel > 0) by {
        if fuel == 0 {
            assert(drive::drive(s, depth, host, fuel) == s);
        }
    }
    let n = drive::advance(s, host);
    let first = drive::runs_in(s, host);
    let later = drive::runs(n, depth, host, (fuel - 1) as nat);
    assert(drive::runs(s, depth, host, fuel) == first + later);
    assert(drive::lives_on(n, depth, host, (fuel - 1) as nat, w));
    assert(never_dirty(n, depth, host, (fuel - 1) as nat, c));
    assert(n.has_effect(w));
    assert(drive::drive(s, depth, host, fuel) == drive::drive(n, depth, host, (fuel - 1) as nat));
    lemma_verify_step(s, base, host, c, g, w);
    drive::lemma_stays_tame(s, base, host);
    if !first.contains(w) {
        lemma_verify_to_the_end(n, depth, base, host, (fuel - 1) as nat, c, g, w);
    }
    drive::lemma_contains_either(first, later, w);
}

/// Before an effect in state Check is found to be up to date, every one of its sources has
/// been brought up to date: when its update is over and it has never been Dirty meanwhile,
/// each writer of each signal that it reads has run, if it was Dirty, has its callback, is
/// not the current effect, is not to be skipped and is not destroyed.
pub proof fn law_check_looks_at_every_source(
    s: State,
    c: EffectId,
    skip: bool,
    host: Host,
    fuel: nat,
    g: SignalId,
    w: EffectId,
)
    requires
        host.orderly(),
        host.careful(),
        keeps_writers(host),
        s.wf(),
        s.state_of(c) is Check,
        s.has_source(c, g),
        s.writers_of(g).contains(w),
        drive::awaits_run(s, w),
        s.local.current != Some(w),
        !(skip && s.is_skippable(w)),
        drive::lives_on(s.update(c, skip), s.local.frames.len(), host, fuel, w),
        never_dirty(s.update(c, skip), s.local.frames.len(), host, fuel, c),
        drive::drive(s.update(c, skip), s.local.frames.len(), host, fuel).local.frames.len()
            <= s.local.frames.len(),
    ensures
        drive::runs(s.update(c, skip), s.local.frames.len(), host, fuel).contains(w),
{
    let n = s.local.frames.len();
    let begun = s.update(c, skip);
    valid::lemma_local_keeps(s, begun);
    assert(begun.has_source(c, g));
    assert(begun.writers_of(g) == s.writers_of(g));
    lemma_verify_to_the_end(begun, n, n, host, fuel, c, g, w);
}

/// So is every source of a computed value in state Check, before its old value is read.
pub proof fn law_computed_read_looks_at_every_source(
    s: State,
    v: SignalId,
    c: EffectId,
    host: Host,
    fuel: nat,
    g: SignalId,
    w: EffectId,
)
    requires
        host.orderly(),
        host.careful(),
        keeps_writers(host),
        s.wf(),
        s.state_of(c) is Check,
        s.local.current matches Some(x) ==> !s.has_source(x, v),
        s.has_source(c, g),
        s.writers_of(g).contains(w),
        drive::awaits_run(s, w),
        s.local.current != Some(w),
        drive::lives_on(s.refresh(v, c), s.local.frames.len(), host, fuel, w),
        never_dirty(s.refresh(v, c), s.local.frames.len(), host, fuel, c),
        drive::drive(s.refresh(v, c), s.local.frames.len(), host, fuel).local.frames.len()
            <= s.local.frames.len(),
    ensures
        drive::runs(s.refresh(v, c), s.local.frames.len(), host, fuel).contains(w),
{
    let n = s.local.frames.len();
    let begun = s.refresh(v, c);
    valid::lemma_local_keeps(s, begun);
    assert(begun.has_source(c, g));
    assert(begun.writers_of(g) == s.writers_of(g));
    lemma_verify_to_the_end(begun, n, n + 1, host, fuel, c, g, w);
}

} // verus!
