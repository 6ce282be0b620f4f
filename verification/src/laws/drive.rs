//! Activities from their beginning to their end, whatever the callbacks do.
use vstd::prelude::*;

use crate::arena::effect_arena::EffectFn;
use crate::arena::effect_arena::EffectId;
use crate::arena::effect_arena::ReactiveState;
use crate::arena::signal_arena::SignalId;
use crate::laws::links;
use crate::laws::push;
use crate::laws::steps;
use crate::laws::valid;
use crate::model::facts;
use crate::model::graph;
use crate::model::FrameModel;
use crate::model::RunKind;
use crate::model::State;
use crate::runtime::Action;

verus! {

/// What a host answers: the state in which a callback leaves the runtime together with
/// the callback, which effects have run inside it, and the time that has passed.
pub struct Host {
    /// What the callback of an effect does.
    pub run: spec_fn(State, EffectId, EffectFn) -> (State, EffectFn),
    /// Which effects run inside the callback of an effect: those of the activities that it
    /// begins itself.
    pub inside: spec_fn(State, EffectId, EffectFn) -> Seq<EffectId>,
    /// How much time has passed.
    pub time: spec_fn(State) -> u128,
}

impl Host {
    /// When a callback returns, the activities it began are over and the current effect
    /// is its own again. It may have done anything else.
    pub open spec fn orderly(self) -> bool {
        forall|s: State, e: EffectId, f: EffectFn|
            {
                &&& (#[trigger] (self.run)(s, e, f)).0.local.frames == s.local.frames
                &&& (self.run)(s, e, f).0.local.current == s.local.current
            }
    }
}

impl Host {
    /// A callback leaves the runtime well formed. An effect that is Dirty and has its
    /// callback in the arena stays so, unless it runs inside or is destroyed; nor is it
    /// taken out of the pending set.
    pub open spec fn careful(self) -> bool {
        forall|s: State, e: EffectId, f: EffectFn, x: EffectId|
            #![trigger (self.run)(s, e, f).0.has_effect(x)]
            {
                let t = (self.run)(s, e, f).0;
                &&& s.wf() ==> t.wf()
                &&& awaits_run(s, x) && t.has_effect(x) && !(self.inside)(s, e, f).contains(x) ==> {
                    &&& awaits_run(t, x)
                    &&& s.pending.contains(x) ==> t.pending.contains(x)
                }
            }
    }
}

/// An effect is live and Dirty, and its callback is in the arena.
pub open spec fn awaits_run(s: State, e: EffectId) -> bool {
    s.has_effect(e) && s.state_of(e) is Dirty && s.has_callback(e)
}

/// One step, and what it asks of the host.
pub open spec fn advance(s: State, host: Host) -> State {
    let (t, action) = s.step();
    match action {
        Action::Run(e, f) => {
            let (u, g) = (host.run)(t, e, f);
            u.finish_callback(g)
        },
        Action::Clock => t.clock((host.time)(t)),
        _ => t,
    }
}

/// At most `fuel` such steps, until no more than `depth` activities are under way.
pub open spec fn drive(s: State, depth: nat, host: Host, fuel: nat) -> State
    decreases fuel,
{
    if fuel == 0 || s.local.frames.len() <= depth {
        s
    } else {
        drive(advance(s, host), depth, host, (fuel - 1) as nat)
    }
}

/// Which effects run in one such step.
pub open spec fn runs_in(s: State, host: Host) -> Seq<EffectId> {
    let (t, action) = s.step();
    match action {
        Action::Run(e, f) => seq![e] + (host.inside)(t, e, f),
        _ => Seq::empty(),
    }
}

/// Which effects run in the steps of `drive`, in order.
pub open spec fn runs(s: State, depth: nat, host: Host, fuel: nat) -> Seq<EffectId>
    decreases fuel,
{
    if fuel == 0 || s.local.frames.len() <= depth {
        Seq::empty()
    } else {
        runs_in(s, host) + runs(advance(s, host), depth, host, (fuel - 1) as nat)
    }
}

/// An effect is live before and after each of the steps of `drive`.
pub open spec fn lives_on(s: State, depth: nat, host: Host, fuel: nat, e: EffectId) -> bool
    decreases fuel,
{
    s.has_effect(e) && (fuel == 0 || s.local.frames.len() <= depth || lives_on(
        advance(s, host),
        depth,
        host,
        (fuel - 1) as nat,
        e,
    ))
}

/// The flush above `depth` activities comes to an effect that is not Clean.
pub open spec fn at_turn(s: State, depth: nat) -> bool {
    s.local.frames.len() == depth + 1 && match s.local.frames.last() {
        FrameModel::Flush { ids, next, .. } => next < ids.len() && s.state_of(ids[next as int])
            !is Clean,
        _ => false,
    }
}

/// How often that is so in the steps of `drive`.
pub open spec fn turns(s: State, depth: nat, host: Host, fuel: nat) -> nat
    decreases fuel,
{
    if fuel == 0 || s.local.frames.len() <= depth {
        0
    } else {
        turns(advance(s, host), depth, host, (fuel - 1) as nat) + if at_turn(s, depth) {
            1nat
        } else {
            0nat
        }
    }
}

/// What follows a callback leaves the current effect alone.
proof fn lemma_conclude_current(s: State, e: EffectId, kind: RunKind)
    ensures
        s.conclude_run(e, kind).local.current == s.local.current,
        s.conclude_run(e, kind).local.frames == s.local.frames,
        s.skip_run(e, kind).local.current == s.local.current,
{
    facts::lemma_notify_rest(s, s.told_after(e), false);
    match kind {
        RunKind::Bare => {},
        RunKind::Initial => {},
        RunKind::Now => {},
        RunKind::Single => {},
        RunKind::SingleThenMark => {},
    }
}

/// The run of an effect, callback included, leaves the stack and the current effect.
pub proof fn lemma_whole_run(s: State, e: EffectId, kind: RunKind, host: Host)
    requires
        host.orderly(),
    ensures
        ({
            let (t, action) = s.begin_run(e, kind);
            match action {
                Action::Run(x, f) => {
                    let (u, g) = (host.run)(t, x, f);
                    let v = u.finish_callback(g);
                    v.local.frames == s.local.frames && v.local.current == s.local.current
                },
                Action::Continue => t.local.frames == s.local.frames && t.local.current
                    == s.local.current,
                _ => false,
            }
        }),
{
    let (t, action) = s.begin_run(e, kind);
    steps::lemma_begin_run_frames(s, e, kind);
    if s.calls(e, kind) {
        let f = s.effect(e).callback->0;
        let (u, g) = (host.run)(t, e, f);
        let popped = u.pop_frame().put_callback(e, Some(g)).with_current(s.local.current);
        assert(u.local.frames == t.local.frames);
        assert(u.local.frames.drop_last() =~= s.local.frames);
        lemma_conclude_current(popped, e, kind);
    } else {
        let back = s.prepare_run(e, kind).with_current(s.local.current);
        lemma_conclude_current(back, e, kind);
        assert(t.local.current == s.local.current);
    }
}

/// `t` is `rest` with nothing, one or two activities more, and the same current effect.
pub open spec fn moved(rest: Seq<FrameModel>, current: Option<EffectId>, t: State) -> bool {
    steps::extends(rest, t.local.frames) && t.local.current == current
}

/// One step with its callback takes the innermost activity off the stack, puts at most
/// two there, and leaves the current effect as it was.
#[verifier::spinoff_prover]
pub proof fn lemma_advance(s: State, host: Host)
    requires
        host.orderly(),
        s.local.frames.len() > 0,
    ensures
        moved(s.local.frames.drop_last(), s.local.current, advance(s, host)),
{
    let rest = s.local.frames.drop_last();
    let p = s.pop_frame();
    match s.local.frames.last() {
        FrameModel::Update { effect, skip } => {
            lemma_whole_run(p, effect, RunKind::SingleThenMark, host);
            steps::lemma_begin_run_frames(p, effect, RunKind::SingleThenMark);
            match p.state_of(effect) {
                ReactiveState::Clean => {},
                ReactiveState::Check => {},
                ReactiveState::Dirty => {},
            }
        },
        FrameModel::Start { effect, kind } => {
            lemma_whole_run(p, effect, kind, host);
            steps::lemma_begin_run_frames(p, effect, kind);
        },
        FrameModel::Running { .. } => {
            assert(s.local.frames =~= rest.push(s.local.frames.last()));
        },
        FrameModel::Verify { effect, sources, next, skip } => {
            lemma_whole_run(p, effect, RunKind::SingleThenMark, host);
            steps::lemma_begin_run_frames(p, effect, RunKind::SingleThenMark);
        },
        FrameModel::Pull { writers, next, current, skip } => {},
        FrameModel::Track { signal, effect } => {
            assert(advance(s, host).local.frames == rest);
        },
        FrameModel::Flush { ids, next, total } => {},
        FrameModel::Budget { must_run, skippable, next, limit, over } => {
            if over is None {
                assert(s.local.frames =~= rest.push(s.local.frames.last()));
            }
        },
        FrameModel::Schedule => {},
    }
}

/// While an activity is under way, those outside of it wait; the current effect is the
/// same whenever the host is asked.
proof fn lemma_drive_keeps_below(s: State, depth: nat, host: Host, fuel: nat)
    requires
        host.orderly(),
        depth <= s.local.frames.len(),
    ensures
        ({
            let t = drive(s, depth, host, fuel);
            &&& t.local.frames.len() >= depth
            &&& t.local.frames.take(depth as int) == s.local.frames.take(depth as int)
            &&& t.local.current == s.local.current
        }),
    decreases fuel,
{
    if fuel > 0 && s.local.frames.len() > depth {
        let next = advance(s, host);
        let rest = s.local.frames.drop_last();
        lemma_advance(s, host);
        assert(next.local.frames.len() >= rest.len());
        assert(next.local.frames.take(depth as int) =~= s.local.frames.take(depth as int));
        lemma_drive_keeps_below(next, depth, host, (fuel - 1) as nat);
    }
}

/// Whatever activity is begun on top of `s` and however the callbacks behave, when it is
/// over the stack is that of `s`, and so is the current effect.
pub proof fn law_activity_leaves_no_trace(s: State, begun: State, host: Host, fuel: nat)
    requires
        host.orderly(),
        begun.local.frames.len() >= s.local.frames.len(),
        begun.local.frames.take(s.local.frames.len() as int) == s.local.frames,
        begun.local.current == s.local.current,
        drive(begun, s.local.frames.len(), host, fuel).local.frames.len()
            <= s.local.frames.len(),
    ensures
        drive(begun, s.local.frames.len(), host, fuel).local.frames == s.local.frames,
        drive(begun, s.local.frames.len(), host, fuel).local.current == s.local.current,
{
    let n = s.local.frames.len();
    let t = drive(begun, n, host, fuel);
    lemma_drive_keeps_below(begun, n, host, fuel);
    assert(t.local.frames.take(n as int) =~= t.local.frames);
}

/// A flush is under way in `s`, above `depth` activities.
pub open spec fn flushing(s: State, depth: nat) -> bool {
    s.local.frames.len() > depth && s.local.frames[depth as int] is Flush
}

/// A flush that is under way goes on, or ends with nothing pending.
#[verifier::spinoff_prover]
pub proof fn lemma_flush_goes_on(s: State, depth: nat, host: Host)
    requires
        host.orderly(),
        flushing(s, depth),
    ensures
        flushing(advance(s, host), depth) || (advance(s, host).local.frames.len() == depth
            && advance(s, host).pending == Seq::<EffectId>::empty()),
{
    let rest = s.local.frames.drop_last();
    let next = advance(s, host);
    lemma_advance(s, host);
    if s.local.frames.len() > depth + 1 {
        assert(rest[depth as int] == s.local.frames[depth as int]);
        assert(next.local.frames[depth as int] == rest[depth as int]);
    } else {
        assert(s.local.frames.last() == s.local.frames[depth as int]);
        if let FrameModel::Flush { ids, next: k, total } = s.local.frames.last() {
            if k >= ids.len() && s.pending.len() == 0 {
                assert(s.pending =~= Seq::<EffectId>::empty());
                assert(next.local.frames == rest);
            }
        }
    }
}

/// A flush that is over leaves nothing pending.
proof fn lemma_flush_to_the_end(s: State, depth: nat, host: Host, fuel: nat)
    requires
        host.orderly(),
        flushing(s, depth),
    ensures
        drive(s, depth, host, fuel).local.frames.len() <= depth ==> drive(
            s,
            depth,
            host,
            fuel,
        ).pending == Seq::<EffectId>::empty(),
    decreases fuel,
{
    if fuel > 0 {
        let next = advance(s, host);
        lemma_flush_goes_on(s, depth, host);
        if flushing(next, depth) {
            lemma_flush_to_the_end(next, depth, host, (fuel - 1) as nat);
        }
    }
}

/// When all pending effects have been processed nothing is pending, whatever the callbacks
/// have done meanwhile: what they made pending has been processed too.
pub proof fn law_process_all_leaves_nothing_pending(s: State, host: Host, fuel: nat)
    requires
        host.orderly(),
        drive(s.process_all(), s.local.frames.len(), host, fuel).local.frames.len()
            <= s.local.frames.len(),
    ensures
        drive(s.process_all(), s.local.frames.len(), host, fuel).pending
            == Seq::<EffectId>::empty(),
        drive(s.process_all(), s.local.frames.len(), host, fuel).local.frames == s.local.frames,
        drive(s.process_all(), s.local.frames.len(), host, fuel).local.current
            == s.local.current,
{
    let n = s.local.frames.len();
    lemma_flush_to_the_end(s.process_all(), n, host, fuel);
    assert(s.process_all().local.frames.take(n as int) =~= s.local.frames);
    law_activity_leaves_no_trace(s, s.process_all(), host, fuel);
}

/// When a flush is over nothing is pending, whatever the callbacks have done meanwhile.
pub proof fn law_flush_leaves_nothing_pending(s: State, host: Host, fuel: nat)
    requires
        host.orderly(),
        drive(s.flush(), s.local.frames.len(), host, fuel).local.frames.len()
            <= s.local.frames.len(),
    ensures
        drive(s.flush(), s.local.frames.len(), host, fuel).pending == Seq::<EffectId>::empty(),
        drive(s.flush(), s.local.frames.len(), host, fuel).local.frames == s.local.frames,
        drive(s.flush(), s.local.frames.len(), host, fuel).local.current == s.local.current,
{
    law_process_all_leaves_nothing_pending(s.with_scheduled(false), host, fuel);
}

/// When the end of the outermost transaction has been processed nothing is pending, and
/// processing is scheduled.
pub proof fn law_transaction_flushes(s: State, suppress: bool, host: Host, fuel: nat)
    requires
        host.orderly(),
        s.local.depth <= 1,
        drive(s.exit(suppress), s.local.frames.len(), host, fuel).local.frames.len()
            <= s.local.frames.len(),
    ensures
        drive(s.exit(suppress), s.local.frames.len(), host, fuel).pending
            == Seq::<EffectId>::empty(),
        drive(s.exit(suppress), s.local.frames.len(), host, fuel).local.scheduled,
        drive(s.exit(suppress), s.local.frames.len(), host, fuel).local.frames == s.local.frames,
{
    let n = s.local.frames.len();
    let begun = s.exit(suppress);
    assert(begun.local.frames[n as int + 1] is Flush);
    assert(begun.local.frames[n as int] is Schedule);
    lemma_exit_to_the_end(begun, n, host, fuel);
    assert(begun.local.frames.take(n as int) =~= s.local.frames);
    law_activity_leaves_no_trace(s.with_current(begun.local.current), begun, host, fuel);
}

/// The flush of a transaction and then its schedule, to the end.
proof fn lemma_exit_to_the_end(s: State, n: nat, host: Host, fuel: nat)
    requires
        host.orderly(),
        flushing(s, n + 1),
        s.local.frames[n as int] is Schedule,
    ensures
        drive(s, n, host, fuel).local.frames.len() <= n ==> drive(s, n, host, fuel).pending
            == Seq::<EffectId>::empty() && drive(s, n, host, fuel).local.scheduled,
    decreases fuel,
{
    if fuel > 0 {
        let next = advance(s, host);
        lemma_flush_goes_on(s, n + 1, host);
        lemma_advance(s, host);
        let rest = s.local.frames.drop_last();
        assert(rest[n as int] == s.local.frames[n as int]);
        assert(next.local.frames[n as int] == rest[n as int]);
        if flushing(next, n + 1) {
            lemma_exit_to_the_end(next, n, host, (fuel - 1) as nat);
        } else if fuel > 1 {
            let last = advance(next, host);
            assert(next.local.frames.last() is Schedule);
            assert(last.local.frames.len() == n && last.local.scheduled);
            assert(last.pending == next.pending);
            assert(drive(next, n, host, (fuel - 1) as nat) == drive(
                last,
                n,
                host,
                (fuel - 2) as nat,
            ));
        }
    }
}

/// Where nothing is pending, processing ends at once, runs nothing and counts nothing.
pub proof fn law_process_all_of_nothing(s: State, host: Host, fuel: nat)
    requires
        s.pending.len() == 0,
        fuel > 0,
    ensures
        ({
            let t = drive(s.process_all(), s.local.frames.len(), host, fuel);
            &&& t.local.frames == s.local.frames
            &&& t.local.processed == 0
            &&& t.effects == s.effects
            &&& t.signals == s.signals
            &&& t.pending == s.pending
        }),
        runs(s.process_all(), s.local.frames.len(), host, fuel) == Seq::<EffectId>::empty(),
{
    let n = s.local.frames.len();
    let begun = s.process_all();
    let t = advance(begun, host);
    assert(begun.local.frames.drop_last() =~= s.local.frames);
    assert(t.local.frames == s.local.frames);
    assert(drive(begun, n, host, fuel) == drive(t, n, host, (fuel - 1) as nat));
    assert(drive(t, n, host, (fuel - 1) as nat) == t);
    assert(runs(t, n, host, (fuel - 1) as nat) == Seq::<EffectId>::empty());
    assert(runs_in(begun, host) == Seq::<EffectId>::empty());
    assert(runs(begun, n, host, fuel) =~= Seq::<EffectId>::empty());
}

/// Processing a second time runs nothing and counts nothing.
pub proof fn law_process_all_twice(s: State, host: Host, fuel: nat, more: nat)
    requires
        host.orderly(),
        drive(s.process_all(), s.local.frames.len(), host, fuel).local.frames.len()
            <= s.local.frames.len(),
        more > 0,
    ensures
        ({
            let t = drive(s.process_all(), s.local.frames.len(), host, fuel);
            let u = drive(t.process_all(), t.local.frames.len(), host, more);
            &&& u.local.processed == 0
            &&& u.effects == t.effects
            &&& u.pending == Seq::<EffectId>::empty()
            &&& u.local.frames == s.local.frames
            &&& runs(t.process_all(), t.local.frames.len(), host, more)
                == Seq::<EffectId>::empty()
        }),
{
    law_process_all_leaves_nothing_pending(s, host, fuel);
    let t = drive(s.process_all(), s.local.frames.len(), host, fuel);
    law_process_all_of_nothing(t, host, more);
}

/// The effect `e` is to be subscribed to `g` above `depth` activities.
spec fn tracking(s: State, depth: nat, g: SignalId, e: EffectId) -> bool {
    s.local.frames.len() > depth && s.local.frames[depth as int] == (FrameModel::Track {
        signal: g,
        effect: Some(e),
    })
}

/// An effect that is to be subscribed waits for what is inside, and is subscribed last.
proof fn lemma_track_to_the_end(
    s: State,
    depth: nat,
    g: SignalId,
    e: EffectId,
    host: Host,
    fuel: nat,
)
    requires
        host.orderly(),
        tracking(s, depth, g, e),
    ensures
        ({
            let t = drive(s, depth, host, fuel);
            t.local.frames.len() <= depth ==> (t.has_effect(e) ==> t.has_source(e, g)) && (
            t.has_signal(g) ==> t.subscribers(g).contains(e))
        }),
    decreases fuel,
{
    if fuel > 0 {
        let rest = s.local.frames.drop_last();
        let next = advance(s, host);
        lemma_advance(s, host);
        if s.local.frames.len() > depth + 1 {
            assert(rest[depth as int] == s.local.frames[depth as int]);
            assert(next.local.frames[depth as int] == rest[depth as int]);
            lemma_track_to_the_end(next, depth, g, e, host, (fuel - 1) as nat);
        } else {
            let p = s.pop_frame();
            let read = p.add_source(e, g);
            assert(next == p.track(g, Some(e)));
            links::law_link_source(p.links(e), g);
            facts::lemma_insert_once(read.subscribers(g), e);
            assert(drive(next, depth, host, (fuel - 1) as nat) == next);
        }
    }
}

/// When a tracked read is over, the effect that made it depends on the signal, if both
/// are still there: whatever its writers have done meanwhile to bring it up to date.
pub proof fn law_read_subscribes(s: State, g: SignalId, e: EffectId, host: Host, fuel: nat)
    requires
        host.orderly(),
        s.local.current == Some(e),
        drive(s.pull_and_track(g), s.local.frames.len(), host, fuel).local.frames.len()
            <= s.local.frames.len(),
    ensures
        ({
            let t = drive(s.pull_and_track(g), s.local.frames.len(), host, fuel);
            &&& t.has_effect(e) ==> t.has_source(e, g)
            &&& t.has_signal(g) ==> t.subscribers(g).contains(e)
        }),
{
    lemma_track_to_the_end(s.pull_and_track(g), s.local.frames.len(), g, e, host, fuel);
}

/// When a computed value has been read, the effect that has read it depends on it, if
/// both are still there.
pub proof fn law_computed_read_subscribes(
    s: State,
    g: SignalId,
    c: EffectId,
    e: EffectId,
    host: Host,
    fuel: nat,
)
    requires
        host.orderly(),
        s.local.current == Some(e),
        drive(s.refresh(g, c), s.local.frames.len(), host, fuel).local.frames.len()
            <= s.local.frames.len(),
    ensures
        ({
            let t = drive(s.refresh(g, c), s.local.frames.len(), host, fuel);
            &&& t.has_effect(e) ==> t.has_source(e, g)
            &&& t.has_signal(g) ==> t.subscribers(g).contains(e)
        }),
{
    lemma_track_to_the_end(s.refresh(g, c), s.local.frames.len(), g, e, host, fuel);
}

// ---------------------------------------------------------------------------
// What a flush has run
// ---------------------------------------------------------------------------

/// The run of another effect leaves `e` waiting, or destroys it, or runs it inside.
#[verifier::spinoff_prover]
#[verifier::rlimit(40)]
proof fn lemma_run_spares(s: State, x: EffectId, kind: RunKind, host: Host, e: EffectId)
    requires
        host.orderly(),
        host.careful(),
        s.wf(),
        awaits_run(s, e),
    ensures
        ({
            let (t, action) = s.begin_run(x, kind);
            match action {
                Action::Run(y, f) => {
                    let (u, g) = (host.run)(t, y, f);
                    let v = u.finish_callback(g);
                    let ran = seq![y] + (host.inside)(t, y, f);
                    &&& v.wf()
                    &&& ran.contains(e) || !v.has_effect(e) || (awaits_run(v, e) && (
                    s.pending.contains(e) ==> v.pending.contains(e)))
                },
                Action::Continue => {
                    &&& t.wf()
                    &&& awaits_run(t, e) && t.pending == s.pending
                },
                _ => false,
            }
        }),
{
    let (t, action) = s.begin_run(x, kind);
    steps::lemma_begin_run_frames(s, x, kind);
    valid::lemma_begin_run(s, x, kind);
    if s.calls(x, kind) {
        let f = s.effect(x).callback->0;
        let (u, g) = (host.run)(t, x, f);
        let ran = seq![x] + (host.inside)(t, x, f);
        let v = u.finish_callback(g);
        assert(u.has_effect(e) == (host.run)(t, x, f).0.has_effect(e));
        assert(t.wf());
        assert(u.wf());
        valid::law_finish_callback_keeps_validity(u, g);
        assert(u.local.frames == t.local.frames);
        if x == e {
            assert(ran[0] == e);
        } else {
            assert(awaits_run(t, e) && t.pending == s.pending);
            if (host.inside)(t, x, f).contains(e) {
                let j = (host.inside)(t, x, f).index_of(e);
                assert(ran[j + 1] == e);
            } else if u.has_effect(e) {
                assert(awaits_run(u, e));
                let popped = u.pop_frame();
                let put = popped.put_callback(x, Some(g));
                let back = put.with_current(s.local.current);
                valid::lemma_local_keeps(u, popped);
                valid::lemma_put_callback_keeps(popped, x, Some(g));
                valid::lemma_local_keeps(put, back);
                assert(awaits_run(back, e) && back.pending == u.pending);
                lemma_conclude_spares(back, x, kind, e);
            } else {
                lemma_stays_gone(u, g, e);
            }
        }
    }
}

/// What follows a callback leaves `e` waiting, or destroys it.
proof fn lemma_conclude_spares(s: State, x: EffectId, kind: RunKind, e: EffectId)
    requires
        s.wf(),
        awaits_run(s, e),
        x != e,
    ensures
        ({
            let v = s.conclude_run(x, kind);
            v.has_effect(e) ==> awaits_run(v, e) && (s.pending.contains(e) ==> v.pending.contains(
                e,
            ))
        }),
{
    if kind == RunKind::SingleThenMark {
        push::lemma_notify_list(s, s.told_after(x), false);
        let marked = s.mark_outputs(x);
        let v = s.conclude_run(x, kind);
        if v.has_effect(e) {
            assert(marked.has_effect(e));
            assert(graph::rank(s.state_of(e)) <= graph::rank(marked.state_of(e)));
            assert(marked.state_of(e) is Dirty);
            assert(marked.effect(e).callback == s.effect(e).callback);
        }
    }
}

/// What follows a callback brings no effect back.
proof fn lemma_stays_gone(u: State, g: EffectFn, e: EffectId)
    requires
        u.wf(),
        !u.has_effect(e),
        u.local.frames.len() > 0,
        u.local.frames.last() is Running,
    ensures
        !u.finish_callback(g).has_effect(e),
{
    if let FrameModel::Running { effect, previous, kind } = u.local.frames.last() {
        let popped = u.pop_frame();
        let put = popped.put_callback(effect, Some(g));
        let back = put.with_current(previous);
        valid::lemma_local_keeps(u, popped);
        valid::lemma_put_callback_keeps(popped, effect, Some(g));
        valid::lemma_local_keeps(put, back);
        assert(!back.has_effect(e));
        if kind == RunKind::SingleThenMark {
            push::lemma_notify_list(back, back.told_after(effect), false);
            if u.finish_callback(g).has_effect(e) {
                assert(back.mark_outputs(effect).has_effect(e));
            }
        }
    }
}

/// `e` is still to come in a list.
pub open spec fn to_come(ids: Seq<EffectId>, next: nat, e: EffectId) -> bool {
    exists|j: int| next <= j < ids.len() && #[trigger] ids[j] == e
}

/// `e` waits in the flush above `depth` activities: it is pending, or still to come in
/// this round, or its update is next.
spec fn in_line(s: State, depth: nat, e: EffectId) -> bool {
    &&& flushing(s, depth)
    &&& awaits_run(s, e)
    &&& {
        ||| s.pending.contains(e)
        ||| match s.local.frames[depth as int] {
            FrameModel::Flush { ids, next, .. } => to_come(ids, next, e),
            _ => false,
        }
        ||| s.local.frames.len() == depth + 2 && s.local.frames.last() == (FrameModel::Update {
            effect: e,
            skip: false,
        })
    }
}

/// One step of something inside the flush: an effect that waits still waits, or has run,
/// or is destroyed.
#[verifier::spinoff_prover]
pub proof fn lemma_inner_step(s: State, host: Host, e: EffectId)
    requires
        host.orderly(),
        host.careful(),
        s.wf(),
        awaits_run(s, e),
        s.local.frames.len() > 0,
        tame(s.local.frames.last()),
    ensures
        ({
            let n = advance(s, host);
            &&& n.wf()
            &&& runs_in(s, host).contains(e) || !n.has_effect(e) || (awaits_run(n, e) && (
            s.pending.contains(e) ==> n.pending.contains(e)))
        }),
{
    let p = s.pop_frame();
    valid::lemma_local_keeps(s, p);
    valid::law_step_keeps_validity(s);
    match s.local.frames.last() {
        FrameModel::Update { effect, skip } => {
            lemma_run_spares(p, effect, RunKind::SingleThenMark, host, e);
            steps::lemma_begin_run_frames(p, effect, RunKind::SingleThenMark);
        },
        FrameModel::Verify { effect, sources, next, skip } => {
            lemma_run_spares(p, effect, RunKind::SingleThenMark, host, e);
            steps::lemma_begin_run_frames(p, effect, RunKind::SingleThenMark);
        },
        FrameModel::Pull { writers, next, current, skip } => {},
        _ => {},
    }
}

/// The activities inside a flush.
pub open spec fn tame(f: FrameModel) -> bool {
    f is Update || f is Verify || f is Pull
}

/// All activities inside the one above `depth` activities are parts of a flush.
pub open spec fn all_tame(s: State, depth: nat) -> bool {
    forall|k: int| depth < k < s.local.frames.len() ==> tame(#[trigger] s.local.frames[k])
}

/// A flush begins nothing but its parts, and neither do its parts.
#[verifier::spinoff_prover]
pub proof fn lemma_stays_tame(s: State, depth: nat, host: Host)
    requires
        host.orderly(),
        s.local.frames.len() > depth,
        s.local.frames[depth as int] is Flush || s.local.frames[depth as int] is Budget || tame(
            s.local.frames[depth as int],
        ),
        all_tame(s, depth),
    ensures
        all_tame(advance(s, host), depth),
{
    let rest = s.local.frames.drop_last();
    let p = s.pop_frame();
    let top = s.local.frames.last();
    assert forall|k: int| depth < k < rest.len() implies tame(#[trigger] rest[k]) by {
        assert(tame(s.local.frames[k]));
    }
    if s.local.frames.len() > depth + 1 {
        assert(tame(s.local.frames[s.local.frames.len() - 1]));
    } else {
        assert(top == s.local.frames[depth as int]);
    }
    match top {
        FrameModel::Update { effect, skip } => {
            lemma_whole_run(p, effect, RunKind::SingleThenMark, host);
            steps::lemma_begin_run_frames(p, effect, RunKind::SingleThenMark);
        },
        FrameModel::Verify { effect, sources, next, skip } => {
            lemma_whole_run(p, effect, RunKind::SingleThenMark, host);
            steps::lemma_begin_run_frames(p, effect, RunKind::SingleThenMark);
        },
        FrameModel::Pull { writers, next, current, skip } => {},
        FrameModel::Flush { ids, next, total } => {},
        FrameModel::Budget { must_run, skippable, next, limit, over } => {
            if over is None {
                assert(s.local.frames =~= rest.push(top));
            }
        },
        _ => {},
    }
}

/// One step of a flush: an effect that waits in it still does, or has run, or is
/// destroyed.
#[verifier::spinoff_prover]
proof fn lemma_line_moves(s: State, depth: nat, host: Host, e: EffectId)
    requires
        host.orderly(),
        host.careful(),
        s.wf(),
        all_tame(s, depth),
        in_line(s, depth, e),
    ensures
        ({
            let n = advance(s, host);
            &&& n.wf()
            &&& runs_in(s, host).contains(e) || !n.has_effect(e) || in_line(n, depth, e)
        }),
{
    let n = advance(s, host);
    let rest = s.local.frames.drop_last();
    lemma_advance(s, host);
    lemma_flush_goes_on(s, depth, host);
    if s.local.frames.len() > depth + 1 {
        assert(tame(s.local.frames[s.local.frames.len() - 1]));
        assert(rest[depth as int] == s.local.frames[depth as int]);
        assert(n.local.frames[depth as int] == rest[depth as int]);
        lemma_inner_step(s, host, e);
        if s.local.frames.last() == (FrameModel::Update { effect: e, skip: false }) {
            assert(runs_in(s, host)[0] == e);
        }
    } else {
        assert(s.local.frames.last() == s.local.frames[depth as int]);
        valid::law_step_keeps_validity(s);
        if let FrameModel::Flush { ids, next, total } = s.local.frames.last() {
            assert(awaits_run(n, e));
            if next < ids.len() {
                let x = ids[next as int];
                if x == e {
                    assert(n.local.frames.last() == (FrameModel::Update {
                        effect: e,
                        skip: false,
                    }));
                } else if to_come(ids, next, e) {
                    let j = choose|j: int| next <= j < ids.len() && #[trigger] ids[j] == e;
                    assert(next + 1 <= j);
                    assert(to_come(ids, next + 1, e));
                }
            } else {
                assert(!to_come(ids, next, e));
                assert(s.pending.contains(e));
                let j = s.pending.index_of(e);
                assert(to_come(s.pending, 0, e));
            }
        }
    }
}

/// An effect that waits in a flush above `base` activities has run when what is above
/// `depth` of them is over.
#[verifier::spinoff_prover]
#[verifier::rlimit(40)]
proof fn lemma_line_ends(s: State, depth: nat, base: nat, host: Host, fuel: nat, e: EffectId)
    requires
        host.orderly(),
        host.careful(),
        s.wf(),
        depth <= base,
        all_tame(s, base),
        in_line(s, base, e),
        lives_on(s, depth, host, fuel, e),
        drive(s, depth, host, fuel).local.frames.len() <= depth,
    ensures
        runs(s, depth, host, fuel).contains(e),
    decreases fuel,
{
    assert(s.local.frames.len() > depth);
    assert(fuel > 0) by {
        if fuel == 0 {
            assert(drive(s, depth, host, fuel) == s);
        }
    }
    let n = advance(s, host);
    let first = runs_in(s, host);
    let later = runs(n, depth, host, (fuel - 1) as nat);
    assert(runs(s, depth, host, fuel) == first + later);
    assert(lives_on(n, depth, host, (fuel - 1) as nat, e));
    assert(n.has_effect(e));
    assert(drive(s, depth, host, fuel) == drive(n, depth, host, (fuel - 1) as nat));
    lemma_line_moves(s, base, host, e);
    lemma_stays_tame(s, base, host);
    if !first.contains(e) {
        lemma_line_ends(n, depth, base, host, (fuel - 1) as nat, e);
    }
    lemma_contains_either(first, later, e);
}

/// What is in a part is in the whole.
pub proof fn lemma_contains_either(a: Seq<EffectId>, b: Seq<EffectId>, e: EffectId)
    ensures
        a.contains(e) || b.contains(e) ==> (a + b).contains(e),
{
    if a.contains(e) {
        let j = a.index_of(e);
        assert((a + b)[j] == e);
    } else if b.contains(e) {
        let j = b.index_of(e);
        assert((a + b)[a.len() + j] == e);
    }
}

/// Processing runs what is pending: every effect that is pending and Dirty when it begins,
/// has its callback, and is not destroyed meanwhile, has run when it is over.
pub proof fn law_process_all_runs_what_is_pending(s: State, host: Host, fuel: nat, e: EffectId)
    requires
        host.orderly(),
        host.careful(),
        s.wf(),
        s.pending.contains(e),
        awaits_run(s, e),
        lives_on(s.process_all(), s.local.frames.len(), host, fuel, e),
        drive(s.process_all(), s.local.frames.len(), host, fuel).local.frames.len()
            <= s.local.frames.len(),
    ensures
        runs(s.process_all(), s.local.frames.len(), host, fuel).contains(e),
{
    valid::lemma_local_keeps(s, s.process_all());
    lemma_line_ends(
        s.process_all(),
        s.local.frames.len(),
        s.local.frames.len(),
        host,
        fuel,
        e,
    );
}

/// A flush runs what is pending, in the same way.
pub proof fn law_flush_runs_what_is_pending(s: State, host: Host, fuel: nat, e: EffectId)
    requires
        host.orderly(),
        host.careful(),
        s.wf(),
        s.pending.contains(e),
        awaits_run(s, e),
        lives_on(s.flush(), s.local.frames.len(), host, fuel, e),
        drive(s.flush(), s.local.frames.len(), host, fuel).local.frames.len()
            <= s.local.frames.len(),
    ensures
        runs(s.flush(), s.local.frames.len(), host, fuel).contains(e),
{
    valid::lemma_local_keeps(s, s.with_scheduled(false));
    law_process_all_runs_what_is_pending(s.with_scheduled(false), host, fuel, e);
}

/// The end of the outermost transaction runs what is pending, in the same way.
pub proof fn law_transaction_runs_what_is_pending(
    s: State,
    suppress: bool,
    host: Host,
    fuel: nat,
    e: EffectId,
)
    requires
        host.orderly(),
        host.careful(),
        s.wf(),
        s.local.depth <= 1,
        s.pending.contains(e),
        awaits_run(s, e),
        lives_on(s.exit(suppress), s.local.frames.len(), host, fuel, e),
        drive(s.exit(suppress), s.local.frames.len(), host, fuel).local.frames.len()
            <= s.local.frames.len(),
    ensures
        runs(s.exit(suppress), s.local.frames.len(), host, fuel).contains(e),
{
    let n = s.local.frames.len();
    let begun = s.exit(suppress);
    valid::lemma_local_keeps(s, begun);
    assert(begun.local.frames[n as int + 1] is Flush);
    assert(begun.pending.contains(e));
    assert(awaits_run(begun, e));
    lemma_line_ends(begun, n, n + 1, host, fuel, e);
}

// ---------------------------------------------------------------------------
// Once for all marks
// ---------------------------------------------------------------------------

/// `e` is in `list` exactly once.
pub open spec fn once(list: Seq<EffectId>, e: EffectId) -> bool {
    exists|j: int|
        {
            &&& 0 <= j < list.len()
            &&& #[trigger] list[j] == e
            &&& forall|k: int| 0 <= k < list.len() && k != j ==> #[trigger] list[k] != e
        }
}

/// Which effects run inside the callback of one such step.
pub open spec fn inside_of(s: State, host: Host) -> Seq<EffectId> {
    let (t, action) = s.step();
    match action {
        Action::Run(e, f) => (host.inside)(t, e, f),
        _ => Seq::empty(),
    }
}

/// Nobody marks `e` in the steps of `drive`: it is Clean before and after each of them, and
/// does not run inside a callback.
pub open spec fn left_alone(s: State, depth: nat, host: Host, fuel: nat, e: EffectId) -> bool
    decreases fuel,
{
    s.state_of(e) is Clean && (fuel == 0 || s.local.frames.len() <= depth || (!inside_of(
        s,
        host,
    ).contains(e) && left_alone(advance(s, host), depth, host, (fuel - 1) as nat, e)))
}

/// Nobody marks `e` any more once it has run in the steps of `drive`.
pub open spec fn not_marked_again(s: State, depth: nat, host: Host, fuel: nat, e: EffectId) -> bool
    decreases fuel,
{
    if fuel == 0 || s.local.frames.len() <= depth {
        true
    } else if runs_in(s, host).contains(e) {
        once(runs_in(s, host), e) && left_alone(
            advance(s, host),
            depth,
            host,
            (fuel - 1) as nat,
            e,
        )
    } else {
        not_marked_again(advance(s, host), depth, host, (fuel - 1) as nat, e)
    }
}

/// A step of a flush does not run an effect that is left alone.
proof fn lemma_clean_does_not_run(s: State, depth: nat, host: Host, e: EffectId)
    requires
        flushing(s, depth),
        all_tame(s, depth),
        s.state_of(e) is Clean,
        !inside_of(s, host).contains(e),
    ensures
        !runs_in(s, host).contains(e),
{
    let (t, action) = s.step();
    if let Action::Run(x, f) = action {
        if s.local.frames.len() > depth + 1 {
            assert(tame(s.local.frames[s.local.frames.len() - 1]));
        } else {
            assert(s.local.frames.last() == s.local.frames[depth as int]);
        }
        match s.local.frames.last() {
            FrameModel::Update { effect, .. } => {
                steps::law_only_stale_effects_run(s, effect, x, f);
            },
            FrameModel::Verify { effect, .. } => {
                steps::law_only_stale_effects_run(s, effect, x, f);
            },
            _ => {},
        }
        assert(x != e);
        let all = runs_in(s, host);
        if all.contains(e) {
            let j = all.index_of(e);
            assert(inside_of(s, host)[j - 1] == e);
        }
    }
}

/// An effect that is left alone does not run.
proof fn lemma_left_alone(s: State, depth: nat, host: Host, fuel: nat, e: EffectId)
    requires
        host.orderly(),
        s.local.frames.len() > depth ==> flushing(s, depth) && all_tame(s, depth),
        left_alone(s, depth, host, fuel, e),
    ensures
        !runs(s, depth, host, fuel).contains(e),
    decreases fuel,
{
    if fuel > 0 && s.local.frames.len() > depth {
        let n = advance(s, host);
        let first = runs_in(s, host);
        let later = runs(n, depth, host, (fuel - 1) as nat);
        lemma_clean_does_not_run(s, depth, host, e);
        lemma_stays_tame(s, depth, host);
        lemma_flush_goes_on(s, depth, host);
        lemma_left_alone(n, depth, host, (fuel - 1) as nat, e);
        if (first + later).contains(e) {
            let j = (first + later).index_of(e);
            if j < first.len() {
                assert(first[j] == e);
            } else {
                assert(later[j - first.len()] == e);
            }
        }
    }
}

/// What is once in one part and not in the other is once in the whole.
proof fn lemma_once_add(a: Seq<EffectId>, b: Seq<EffectId>, e: EffectId)
    ensures
        once(a, e) && !b.contains(e) ==> once(a + b, e),
        once(b, e) && !a.contains(e) ==> once(a + b, e),
{
    let c = a + b;
    if once(a, e) && !b.contains(e) {
        let j = choose|j: int|
            {
                &&& 0 <= j < a.len()
                &&& #[trigger] a[j] == e
                &&& forall|k: int| 0 <= k < a.len() && k != j ==> #[trigger] a[k] != e
            };
        assert(c[j] == e);
        assert forall|k: int| 0 <= k < c.len() && k != j implies #[trigger] c[k] != e by {
            if k < a.len() {
                assert(a[k] != e);
            } else {
                assert(b.contains(b[k - a.len()]));
            }
        }
    }
    if once(b, e) && !a.contains(e) {
        let j = choose|j: int|
            {
                &&& 0 <= j < b.len()
                &&& #[trigger] b[j] == e
                &&& forall|k: int| 0 <= k < b.len() && k != j ==> #[trigger] b[k] != e
            };
        assert(c[a.len() + j] == e);
        assert forall|k: int| 0 <= k < c.len() && k != a.len() + j implies #[trigger] c[k] != e by {
            if k < a.len() {
                assert(a.contains(a[k]));
            } else {
                assert(b[k - a.len()] != e);
            }
        }
    }
}

/// An effect that runs and is not marked again runs once.
proof fn lemma_runs_once(s: State, depth: nat, host: Host, fuel: nat, e: EffectId)
    requires
        host.orderly(),
        s.local.frames.len() > depth ==> flushing(s, depth) && all_tame(s, depth),
        not_marked_again(s, depth, host, fuel, e),
        runs(s, depth, host, fuel).contains(e),
    ensures
        once(runs(s, depth, host, fuel), e),
    decreases fuel,
{
    if fuel > 0 && s.local.frames.len() > depth {
        let n = advance(s, host);
        let first = runs_in(s, host);
        let later = runs(n, depth, host, (fuel - 1) as nat);
        lemma_stays_tame(s, depth, host);
        lemma_flush_goes_on(s, depth, host);
        if first.contains(e) {
            lemma_left_alone(n, depth, host, (fuel - 1) as nat, e);
        } else {
            let j = (first + later).index_of(e);
            if j < first.len() {
                assert(first[j] == e);
            } else {
                assert(later[j - first.len()] == e);
            }
            lemma_runs_once(n, depth, host, (fuel - 1) as nat, e);
        }
        lemma_once_add(first, later, e);
    }
}

/// However often an effect was marked before, it runs once: every effect that is pending
/// and Dirty when processing begins, has its callback, is not destroyed meanwhile, and is
/// not marked again after its run, has run exactly once when it is over.
pub proof fn law_process_all_runs_each_once(s: State, host: Host, fuel: nat, e: EffectId)
    requires
        host.orderly(),
        host.careful(),
        s.wf(),
        s.pending.contains(e),
        awaits_run(s, e),
        lives_on(s.process_all(), s.local.frames.len(), host, fuel, e),
        not_marked_again(s.process_all(), s.local.frames.len(), host, fuel, e),
        drive(s.process_all(), s.local.frames.len(), host, fuel).local.frames.len()
            <= s.local.frames.len(),
    ensures
        once(runs(s.process_all(), s.local.frames.len(), host, fuel), e),
{
    law_process_all_runs_what_is_pending(s, host, fuel, e);
    lemma_runs_once(s.process_all(), s.local.frames.len(), host, fuel, e);
}

/// The count that a flush keeps.
spec fn counted(s: State, depth: nat) -> nat {
    match s.local.frames[depth as int] {
        FrameModel::Flush { total, .. } => total as nat,
        _ => 0,
    }
}

/// The count of a flush, to its end.
proof fn lemma_count_to_the_end(s: State, depth: nat, host: Host, fuel: nat)
    requires
        host.orderly(),
        flushing(s, depth),
        counted(s, depth) + turns(s, depth, host, fuel) <= usize::MAX,
        drive(s, depth, host, fuel).local.frames.len() <= depth,
    ensures
        drive(s, depth, host, fuel).local.processed == counted(s, depth) + turns(
            s,
            depth,
            host,
            fuel,
        ),
    decreases fuel,
{
    let n = advance(s, host);
    let rest = s.local.frames.drop_last();
    lemma_advance(s, host);
    lemma_flush_goes_on(s, depth, host);
    if s.local.frames.len() > depth + 1 {
        assert(rest[depth as int] == s.local.frames[depth as int]);
        assert(n.local.frames[depth as int] == rest[depth as int]);
        lemma_count_to_the_end(n, depth, host, (fuel - 1) as nat);
    } else {
        assert(s.local.frames.last() == s.local.frames[depth as int]);
        if flushing(n, depth) {
            if let FrameModel::Flush { ids, next, total } = s.local.frames.last() {
                assert(rest.len() == depth);
                assert(counted(n, depth) == total + if at_turn(s, depth) {
                    1nat
                } else {
                    0nat
                });
            }
            lemma_count_to_the_end(n, depth, host, (fuel - 1) as nat);
        }
    }
}

/// When processing is over, the number it gives is that of the effects that were not Clean
/// at their turn.
pub proof fn law_process_all_counts(s: State, host: Host, fuel: nat)
    requires
        host.orderly(),
        turns(s.process_all(), s.local.frames.len(), host, fuel) <= usize::MAX,
        drive(s.process_all(), s.local.frames.len(), host, fuel).local.frames.len()
            <= s.local.frames.len(),
    ensures
        drive(s.process_all(), s.local.frames.len(), host, fuel).local.processed == turns(
            s.process_all(),
            s.local.frames.len(),
            host,
            fuel,
        ),
{
    lemma_count_to_the_end(s.process_all(), s.local.frames.len(), host, fuel);
}

/// So does a flush.
pub proof fn law_flush_counts(s: State, host: Host, fuel: nat)
    requires
        host.orderly(),
        turns(s.flush(), s.local.frames.len(), host, fuel) <= usize::MAX,
        drive(s.flush(), s.local.frames.len(), host, fuel).local.frames.len()
            <= s.local.frames.len(),
    ensures
        drive(s.flush(), s.local.frames.len(), host, fuel).local.processed == turns(
            s.flush(),
            s.local.frames.len(),
            host,
            fuel,
        ),
{
    law_process_all_counts(s.with_scheduled(false), host, fuel);
}

} // verus!
