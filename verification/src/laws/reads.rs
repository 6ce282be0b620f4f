//! Reads, from their beginning to their end: a pull runs the stale writers of a signal, a
//! computed value is computed if it has to be.
use vstd::prelude::*;

use crate::arena::effect_arena::EffectFn;
use crate::arena::effect_arena::EffectId;
use crate::arena::effect_arena::ReactiveState;
use crate::arena::signal_arena::SignalId;
use crate::laws::drive;
use crate::laws::drive::Host;
use crate::laws::push;
use crate::laws::steps;
use crate::laws::valid;
use crate::model::FrameModel;
use crate::model::RunKind;
use crate::model::State;
use crate::runtime::Action;

verus! {

// ---------------------------------------------------------------------------
// Pulls
// ---------------------------------------------------------------------------

/// `w` waits in the pull above `base` activities: it is still to come, or its update is
/// next.
spec fn in_pull(s: State, base: nat, w: EffectId) -> bool {
    &&& s.local.frames.len() > base
    &&& drive::awaits_run(s, w)
    &&& match s.local.frames[base as int] {
        FrameModel::Pull { writers, next, current, skip } => {
            &&& !skip
            &&& current != Some(w)
            &&& drive::to_come(writers, next, w) || (s.local.frames.len() == base + 2
                && s.local.frames.last() == (FrameModel::Update { effect: w, skip: false }))
        },
        _ => false,
    }
}

/// One step of a pull: a writer that waits in it still does, or has run, or is destroyed.
proof fn lemma_pull_moves(s: State, base: nat, host: Host, w: EffectId)
    requires
        host.orderly(),
        host.careful(),
        s.wf(),
        drive::all_tame(s, base),
        in_pull(s, base, w),
    ensures
        ({
            let n = drive::advance(s, host);
            &&& n.wf()
            &&& drive::runs_in(s, host).contains(w) || !n.has_effect(w) || in_pull(n, base, w)
        }),
{
    let n = drive::advance(s, host);
    let rest = s.local.frames.drop_last();
    drive::lemma_advance(s, host);
    if s.local.frames.len() > base + 1 {
        assert(drive::tame(s.local.frames[s.local.frames.len() - 1]));
        assert(rest[base as int] == s.local.frames[base as int]);
        assert(n.local.frames[base as int] == rest[base as int]);
        drive::lemma_inner_step(s, host, w);
        if s.local.frames.last() == (FrameModel::Update { effect: w, skip: false }) {
            assert(drive::runs_in(s, host)[0] == w);
        }
    } else {
        assert(s.local.frames.last() == s.local.frames[base as int]);
        valid::law_step_keeps_validity(s);
        if let FrameModel::Pull { writers, next, current, skip } = s.local.frames.last() {
            let j = choose|j: int| next <= j < writers.len() && #[trigger] writers[j] == w;
            assert(rest.len() == base);
            assert(n.local.frames[base as int] == (FrameModel::Pull {
                writers,
                next: next + 1,
                current,
                skip,
            }));
            if j == next {
                assert(n.local.frames.last() == (FrameModel::Update { effect: w, skip: false }));
            } else {
                assert(drive::to_come(writers, next + 1, w));
            }
        }
    }
}

/// A writer that waits in a pull has run when what is above `depth` activities is over.
#[verifier::spinoff_prover]
#[verifier::rlimit(40)]
proof fn lemma_pull_ends(s: State, depth: nat, base: nat, host: Host, fuel: nat, w: EffectId)
    requires
        host.orderly(),
        host.careful(),
        s.wf(),
        depth <= base,
        drive::all_tame(s, base),
        in_pull(s, base, w),
        drive::lives_on(s, depth, host, fuel, w),
        drive::drive(s, depth, host, fuel).local.frames.len() <= depth,
    ensures
        drive::runs(s, depth, host, fuel).contains(w),
    decreases fuel,
{
    assert(s.local.frames.len() > depth);
    assert(fuel > 0) by {
        if fuel == 0 {
            assert(drive::drive(s, depth, host, fuel) == s);
        }
    }
    let n = drive::advance(s, host);
    let first = drive::runs_in(s, host);
    let later = drive::runs(n, depth, host, (fuel - 1) as nat);
    assert(drive::runs(s, depth, host, fuel) == first + later);
    assert(drive::lives_on(n, depth, host, (fuel - 1) as nat, w));
    assert(n.has_effect(w));
    assert(drive::drive(s, depth, host, fuel) == drive::drive(n, depth, host, (fuel - 1) as nat));
    lemma_pull_moves(s, base, host, w);
    drive::lemma_stays_tame(s, base, host);
    if !first.contains(w) {
        lemma_pull_ends(n, depth, base, host, (fuel - 1) as nat, w);
    }
    drive::lemma_contains_either(first, later, w);
}

/// A pull brings a signal up to date: every writer of it that is Dirty, has its callback, is
/// not the current effect and is not destroyed meanwhile, has run when the pull is over.
pub proof fn law_pull_runs_stale_writers(
    s: State,
    g: SignalId,
    host: Host,
    fuel: nat,
    w: EffectId,
)
    requires
        host.orderly(),
        host.careful(),
        s.wf(),
        s.writers_of(g).contains(w),
        s.local.current != Some(w),
        drive::awaits_run(s, w),
        drive::lives_on(s.pull(g, false), s.local.frames.len(), host, fuel, w),
        drive::drive(s.pull(g, false), s.local.frames.len(), host, fuel).local.frames.len()
            <= s.local.frames.len(),
    ensures
        drive::runs(s.pull(g, false), s.local.frames.len(), host, fuel).contains(w),
{
    let n = s.local.frames.len();
    let begun = s.pull(g, false);
    valid::lemma_local_keeps(s, begun);
    let j = s.writers_of(g).index_of(w);
    assert(s.writers_of(g)[j] == w);
    assert(drive::to_come(s.writers_of(g), 0, w));
    lemma_pull_ends(begun, n, n, host, fuel, w);
}

/// So does a tracked read, before the reader depends on the signal.
pub proof fn law_read_runs_stale_writers(
    s: State,
    g: SignalId,
    host: Host,
    fuel: nat,
    w: EffectId,
)
    requires
        host.orderly(),
        host.careful(),
        s.wf(),
        s.writers_of(g).contains(w),
        s.local.current != Some(w),
        drive::awaits_run(s, w),
        drive::lives_on(s.pull_and_track(g), s.local.frames.len(), host, fuel, w),
        drive::drive(s.pull_and_track(g), s.local.frames.len(), host, fuel).local.frames.len()
            <= s.local.frames.len(),
    ensures
        drive::runs(s.pull_and_track(g), s.local.frames.len(), host, fuel).contains(w),
{
    let n = s.local.frames.len();
    let begun = s.pull_and_track(g);
    valid::lemma_local_keeps(s, begun);
    let j = s.writers_of(g).index_of(w);
    assert(s.writers_of(g)[j] == w);
    assert(drive::to_come(s.writers_of(g), 0, w));
    lemma_pull_ends(begun, n, n + 1, host, fuel, w);
}

// ---------------------------------------------------------------------------
// Computed values
// ---------------------------------------------------------------------------

/// A computed value that is up to date, or that the current effect depends on already, is
/// not computed when it is read: nothing runs.
pub proof fn law_computed_read_of_a_fresh_value(
    s: State,
    g: SignalId,
    c: EffectId,
    host: Host,
    fuel: nat,
)
    requires
        !s.recomputes(g, c),
        fuel > 0,
    ensures
        ({
            let n = s.local.frames.len();
            let t = drive::drive(s.refresh(g, c), n, host, fuel);
            &&& t == s.track(g, s.local.current)
            &&& drive::runs(s.refresh(g, c), n, host, fuel) == Seq::<EffectId>::empty()
        }),
{
    let n = s.local.frames.len();
    let begun = s.refresh(g, c);
    let t = drive::advance(begun, host);
    assert(begun.pop_frame().local.frames =~= s.local.frames);
    assert(begun.pop_frame() == s);
    assert(t == s.track(g, s.local.current));
    assert(t.local.frames == s.local.frames);
    assert(drive::drive(begun, n, host, fuel) == drive::drive(t, n, host, (fuel - 1) as nat));
    assert(drive::drive(t, n, host, (fuel - 1) as nat) == t);
    assert(drive::runs(t, n, host, (fuel - 1) as nat) == Seq::<EffectId>::empty());
    assert(drive::runs_in(begun, host) == Seq::<EffectId>::empty());
    assert(drive::runs(begun, n, host, fuel) =~= Seq::<EffectId>::empty());
}

/// The state in which the callback of a computed value is called when it is read.
pub open spec fn called_in(s: State, g: SignalId, c: EffectId) -> State {
    s.push_frame(FrameModel::Track { signal: g, effect: s.local.current }).begin_run(
        c,
        RunKind::SingleThenMark,
    ).0
}

/// A computed value that is Dirty, and that the current effect does not depend on yet, is
/// computed when it is read: its callback is called once, and nothing else runs but what
/// that callback runs itself. Then the read is over, and the current effect, if there is
/// one, is subscribed to the value.
pub proof fn law_computed_read_of_a_stale_value(
    s: State,
    g: SignalId,
    c: EffectId,
    host: Host,
    fuel: nat,
)
    requires
        host.orderly(),
        s.recomputes(g, c),
        s.state_of(c) is Dirty,
        s.has_callback(c),
        fuel >= 2,
    ensures
        ({
            let n = s.local.frames.len();
            let f = s.effect(c).callback->0;
            let (u, h) = (host.run)(called_in(s, g, c), c, f);
            let t = drive::drive(s.refresh(g, c), n, host, fuel);
            &&& drive::runs(s.refresh(g, c), n, host, fuel) == seq![c] + (host.inside)(
                called_in(s, g, c),
                c,
                f,
            )
            &&& t == u.finish_callback(h).pop_frame().track(g, s.local.current)
            &&& t.local.frames == s.local.frames
            &&& t.local.current == s.local.current
        }),
{
    let n = s.local.frames.len();
    let begun = s.refresh(g, c);
    let waiting = s.push_frame(FrameModel::Track { signal: g, effect: s.local.current });
    let f = s.effect(c).callback->0;
    let called = called_in(s, g, c);
    let (u, h) = (host.run)(called, c, f);
    let first = u.finish_callback(h);
    let last = drive::advance(first, host);
    assert(begun.pop_frame().local.frames =~= waiting.local.frames);
    assert(begun.pop_frame() == waiting);
    assert(begun.step() == waiting.begin_run(c, RunKind::SingleThenMark));
    assert(waiting.calls(c, RunKind::SingleThenMark));
    assert(begun.step() == (called, Action::Run(c, f)));
    assert(drive::advance(begun, host) == first);
    drive::lemma_whole_run(waiting, c, RunKind::SingleThenMark, host);
    assert(first.local.frames == waiting.local.frames);
    assert(first.local.frames.last() == (FrameModel::Track {
        signal: g,
        effect: s.local.current,
    }));
    assert(first.step().1 is Continue);
    assert(last == first.pop_frame().track(g, s.local.current));
    assert(last.local.frames =~= s.local.frames);
    let m = (fuel - 1) as nat;
    let k = (fuel - 2) as nat;
    assert(drive::drive(begun, n, host, fuel) == drive::drive(first, n, host, m));
    assert(drive::drive(first, n, host, m) == drive::drive(last, n, host, k));
    assert(drive::drive(last, n, host, k) == last);
    assert(drive::runs(last, n, host, k) == Seq::<EffectId>::empty());
    assert(drive::runs_in(first, host) == Seq::<EffectId>::empty());
    assert(drive::runs(first, n, host, m) =~= Seq::<EffectId>::empty());
    assert(drive::runs_in(begun, host) == seq![c] + (host.inside)(called, c, f));
    assert(drive::runs(begun, n, host, fuel) =~= seq![c] + (host.inside)(called, c, f));
}

/// A callback leaves the runtime well formed, and whoever it marks is pending.
pub open spec fn marks_are_pending(host: Host) -> bool {
    forall|s: State, e: EffectId, f: EffectFn, x: EffectId|
        #![trigger (host.run)(s, e, f).0.state_of(x)]
        {
            let t = (host.run)(s, e, f).0;
            &&& s.wf() ==> t.wf()
            &&& s.state_of(x) is Clean ==> t.state_of(x) is Clean || t.pending.contains(x)
        }
}

/// `c` is not stale, or it has been marked and is pending.
pub open spec fn fresh_or_marked(s: State, c: EffectId) -> bool {
    s.state_of(c) is Clean || s.pending.contains(c)
}

/// A run of `c` leaves it fresh, unless it is marked meanwhile.
proof fn lemma_run_is_fresh(s: State, c: EffectId, host: Host)
    requires
        host.orderly(),
        marks_are_pending(host),
        s.wf(),
    ensures
        ({
            let (t, action) = s.begin_run(c, RunKind::SingleThenMark);
            match action {
                Action::Run(x, f) => {
                    let (u, g) = (host.run)(t, x, f);
                    let v = u.finish_callback(g);
                    v.wf() && fresh_or_marked(v, c)
                },
                _ => t.wf() && fresh_or_marked(t, c),
            }
        }),
{
    let kind = RunKind::SingleThenMark;
    let (t, action) = s.begin_run(c, kind);
    steps::lemma_begin_run_frames(s, c, kind);
    valid::lemma_begin_run(s, c, kind);
    if s.calls(c, kind) {
        steps::law_run_starts_afresh(s, c, kind);
        let f = s.effect(c).callback->0;
        let (u, g) = (host.run)(t, c, f);
        let v = u.finish_callback(g);
        assert(u.state_of(c) is Clean || u.pending.contains(c)) by {
            assert((host.run)(t, c, f).0.state_of(c) == u.state_of(c));
        }
        assert(u.local.frames == t.local.frames);
        valid::law_finish_callback_keeps_validity(u, g);
        let popped = u.pop_frame();
        let put = popped.put_callback(c, Some(g));
        let back = put.with_current(s.local.current);
        valid::lemma_local_keeps(u, popped);
        valid::lemma_put_callback_keeps(popped, c, Some(g));
        valid::lemma_local_keeps(put, back);
        assert(back.state_of(c) == u.state_of(c) && back.pending == u.pending);
        push::lemma_notify_list(back, back.told_after(c), false);
        let marked = back.mark_outputs(c);
        assert(v.state_of(c) == marked.state_of(c) && v.pending == marked.pending);
        if marked.state_of(c) !is Clean {
            assert(marked.has_effect(c));
        }
    } else {
        let ready = s.prepare_run(c, kind);
        assert(ready.state_of(c) is Clean) by {
            if !s.wanted(c, kind) {
                assert(ready == s.set_state(c, ReactiveState::Clean));
            }
        }
        assert(t.state_of(c) == ready.state_of(c));
    }
}

/// `c` is being updated above `base` activities.
spec fn updating(s: State, base: nat, c: EffectId) -> bool {
    s.local.frames.len() > base && match s.local.frames[base as int] {
        FrameModel::Update { effect, .. } => effect == c,
        FrameModel::Verify { effect, .. } => effect == c,
        _ => false,
    }
}

/// One step of an update: it goes on, or it ends with `c` fresh or marked.
#[verifier::spinoff_prover]
proof fn lemma_update_moves(s: State, base: nat, c: EffectId, host: Host)
    requires
        host.orderly(),
        marks_are_pending(host),
        s.wf(),
        updating(s, base, c),
    ensures
        ({
            let n = drive::advance(s, host);
            &&& n.wf()
            &&& updating(n, base, c) || (n.local.frames.len() == base && fresh_or_marked(n, c))
        }),
{
    let n = drive::advance(s, host);
    let rest = s.local.frames.drop_last();
    let p = s.pop_frame();
    drive::lemma_advance(s, host);
    lemma_advance_wf(s, host);
    if s.local.frames.len() > base + 1 {
        assert(rest[base as int] == s.local.frames[base as int]);
        assert(n.local.frames[base as int] == rest[base as int]);
    } else {
        assert(s.local.frames.last() == s.local.frames[base as int]);
        assert(rest.len() == base);
        valid::lemma_local_keeps(s, p);
        lemma_run_is_fresh(p, c, host);
        steps::lemma_begin_run_frames(p, c, RunKind::SingleThenMark);
        drive::lemma_whole_run(p, c, RunKind::SingleThenMark, host);
        match s.local.frames.last() {
            FrameModel::Update { effect, skip } => {
                match p.state_of(c) {
                    ReactiveState::Clean => {},
                    ReactiveState::Check => {},
                    ReactiveState::Dirty => {},
                }
            },
            FrameModel::Verify { effect, sources, next, skip } => {
                if next < sources.len() && p.state_of(c) !is Dirty {
                    assert(n.local.frames[base as int] == (FrameModel::Verify {
                        effect: c,
                        sources,
                        next: next + 1,
                        skip,
                    }));
                }
            },
            _ => {},
        }
    }
}

/// One step with its callback leaves the runtime well formed.
proof fn lemma_advance_wf(s: State, host: Host)
    requires
        marks_are_pending(host),
        s.wf(),
    ensures
        drive::advance(s, host).wf(),
{
    let (t, action) = s.step();
    valid::law_step_keeps_validity(s);
    match action {
        Action::Run(e, f) => {
            let (u, g) = (host.run)(t, e, f);
            assert((host.run)(t, e, f).0.state_of(e) == u.state_of(e));
            assert(u.wf());
            valid::law_finish_callback_keeps_validity(u, g);
        },
        Action::Clock => {
            valid::law_clock_keeps_validity(t, (host.time)(t));
        },
        _ => {},
    }
}

/// The update of a computed value, and then the subscription of its reader, to the end.
proof fn lemma_refresh_ends(s: State, n: nat, c: EffectId, host: Host, fuel: nat)
    requires
        host.orderly(),
        marks_are_pending(host),
        s.wf(),
        s.local.frames.len() > n,
        s.local.frames[n as int] is Track,
        updating(s, n + 1, c) || (s.local.frames.len() == n + 1 && fresh_or_marked(s, c)),
    ensures
        drive::drive(s, n, host, fuel).local.frames.len() <= n ==> fresh_or_marked(
            drive::drive(s, n, host, fuel),
            c,
        ),
    decreases fuel,
{
    if fuel > 0 {
        let next = drive::advance(s, host);
        let rest = s.local.frames.drop_last();
        drive::lemma_advance(s, host);
        if s.local.frames.len() > n + 1 {
            lemma_update_moves(s, n + 1, c, host);
            assert(rest[n as int] == s.local.frames[n as int]);
            assert(next.local.frames[n as int] == rest[n as int]);
            lemma_refresh_ends(next, n, c, host, (fuel - 1) as nat);
        } else {
            assert(s.local.frames.last() == s.local.frames[n as int]);
            assert(next.state_of(c) == s.state_of(c));
            assert(next.pending == s.pending);
            assert(drive::drive(next, n, host, (fuel - 1) as nat) == next);
        }
    }
}

/// When a stale computed value has been read, it is up to date, unless it has been marked
/// again meanwhile; then it is pending.
pub proof fn law_computed_read_is_fresh(
    s: State,
    g: SignalId,
    c: EffectId,
    host: Host,
    fuel: nat,
)
    requires
        host.orderly(),
        marks_are_pending(host),
        s.wf(),
        s.recomputes(g, c),
        drive::drive(s.refresh(g, c), s.local.frames.len(), host, fuel).local.frames.len()
            <= s.local.frames.len(),
    ensures
        fresh_or_marked(drive::drive(s.refresh(g, c), s.local.frames.len(), host, fuel), c),
{
    let n = s.local.frames.len();
    let begun = s.refresh(g, c);
    valid::lemma_local_keeps(s, begun);
    assert(begun.local.frames[n as int] is Track);
    assert(begun.local.frames[n as int + 1] is Update);
    lemma_refresh_ends(begun, n, c, host, fuel);
}

} // verus!
