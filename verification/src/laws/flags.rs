//! What a thread has of its own besides its activities: whether processing is scheduled,
//! how many transactions are open, whether UI updates are suppressed.
use vstd::prelude::*;

use crate::arena::effect_arena::EffectFn;
use crate::arena::effect_arena::EffectId;
use crate::arena::signal_arena::SignalId;
use crate::laws::drive;
use crate::laws::drive::Host;
use crate::laws::emit;
use crate::laws::steps;
use crate::model::facts;
use crate::model::FrameModel;
use crate::model::RunKind;
use crate::model::State;
use crate::runtime::Action;

verus! {

/// As many transactions are open in `t` as in `s`, and UI updates are suppressed in both or
/// in neither.
pub open spec fn same_transactions(s: State, t: State) -> bool {
    &&& t.local.depth == s.local.depth
    &&& t.local.suppress == s.local.suppress
}

/// Callbacks end the transactions that they begin.
pub open spec fn ends_transactions(host: Host) -> bool {
    forall|s: State, e: EffectId, f: EffectFn|
        same_transactions(s, (#[trigger] (host.run)(s, e, f)).0)
}

/// Callbacks do not schedule processing: an emit inside an effect does not.
pub open spec fn schedules_nothing(host: Host) -> bool {
    forall|s: State, e: EffectId, f: EffectFn|
        (#[trigger] (host.run)(s, e, f)).0.local.scheduled == s.local.scheduled
}

/// What precedes and follows a callback leaves the flags alone.
proof fn lemma_run_flags(s: State, e: EffectId, kind: RunKind)
    ensures
        same_transactions(s, s.prepare_run(e, kind)),
        same_transactions(s, s.conclude_run(e, kind)),
        same_transactions(s, s.skip_run(e, kind)),
        s.prepare_run(e, kind).local.scheduled == s.local.scheduled,
        s.conclude_run(e, kind).local.scheduled == s.local.scheduled,
        s.skip_run(e, kind).local.scheduled == s.local.scheduled,
{
    facts::lemma_notify_rest(s, s.told_after(e), false);
    match kind {
        RunKind::Bare => {},
        RunKind::Initial => {},
        RunKind::Now => {},
        RunKind::Single => {},
        RunKind::SingleThenMark => {},
    }
}

/// The beginning of a run leaves the flags alone.
proof fn lemma_begin_run_flags(s: State, e: EffectId, kind: RunKind)
    ensures
        same_transactions(s, s.begin_run(e, kind).0),
        s.begin_run(e, kind).0.local.scheduled == s.local.scheduled,
{
    let ready = s.prepare_run(e, kind);
    lemma_run_flags(s, e, kind);
    lemma_run_flags(ready.with_current(s.local.current), e, kind);
}

/// The end of a callback leaves the flags alone.
proof fn lemma_finish_flags(s: State, f: EffectFn)
    ensures
        same_transactions(s, s.finish_callback(f)),
        s.finish_callback(f).local.scheduled == s.local.scheduled,
{
    if s.local.frames.len() > 0 {
        if let FrameModel::Running { effect, previous, kind } = s.local.frames.last() {
            let back = s.pop_frame().put_callback(effect, Some(f)).with_current(previous);
            lemma_run_flags(back, effect, kind);
        }
    }
}

/// A step leaves the flags alone, but for the one that schedules processing.
#[verifier::spinoff_prover]
proof fn lemma_step_flags(s: State)
    ensures
        same_transactions(s, s.step().0),
        s.local.frames.len() == 0 || s.local.frames.last() !is Schedule
            ==> s.step().0.local.scheduled == s.local.scheduled,
{
    if s.local.frames.len() > 0 {
        let p = s.pop_frame();
        match s.local.frames.last() {
            FrameModel::Update { effect, skip } => {
                lemma_begin_run_flags(p, effect, RunKind::SingleThenMark);
            },
            FrameModel::Start { effect, kind } => {
                lemma_begin_run_flags(p, effect, kind);
            },
            FrameModel::Running { .. } => {},
            FrameModel::Verify { effect, sources, next, skip } => {
                lemma_begin_run_flags(p, effect, RunKind::SingleThenMark);
            },
            FrameModel::Pull { writers, next, current, skip } => {},
            FrameModel::Track { signal, effect } => {},
            FrameModel::Flush { ids, next, total } => {},
            FrameModel::Budget { must_run, skippable, next, limit, over } => {},
            FrameModel::Schedule => {},
        }
    }
}

/// One step with its callback leaves the flags alone.
proof fn lemma_advance_flags(s: State, host: Host)
    ensures
        ends_transactions(host) ==> same_transactions(s, drive::advance(s, host)),
        schedules_nothing(host) && (s.local.frames.len() == 0 || s.local.frames.last()
            !is Schedule) ==> drive::advance(s, host).local.scheduled == s.local.scheduled,
{
    let (t, action) = s.step();
    lemma_step_flags(s);
    match action {
        Action::Run(e, f) => {
            let (u, g) = (host.run)(t, e, f);
            lemma_finish_flags(u, g);
            if ends_transactions(host) {
                assert(same_transactions(t, (host.run)(t, e, f).0));
            }
            if schedules_nothing(host) {
                assert((host.run)(t, e, f).0.local.scheduled == t.local.scheduled);
            }
        },
        Action::Clock => {
            steps::law_done(s);
        },
        _ => {},
    }
}

// ---------------------------------------------------------------------------
// Transactions
// ---------------------------------------------------------------------------

/// Activities leave the transactions as they are.
proof fn lemma_drive_transactions(s: State, depth: nat, host: Host, fuel: nat)
    requires
        ends_transactions(host),
    ensures
        same_transactions(s, drive::drive(s, depth, host, fuel)),
    decreases fuel,
{
    if fuel > 0 && s.local.frames.len() > depth {
        lemma_advance_flags(s, host);
        lemma_drive_transactions(drive::advance(s, host), depth, host, (fuel - 1) as nat);
    }
}

/// What a function that is run in a transaction finds, and what it leaves behind. While it
/// runs the transaction is open, and UI updates are suppressed if they were before or the
/// transaction asks for it. Afterwards, when what the end of the transaction began is over
/// or still under way, as many transactions are open as before, and UI updates are
/// suppressed if they were before: whatever the function did, and whether it returned or
/// was cut short, as long as the transactions inside it have been ended. The effects that
/// run at the end make no difference, as long as they end their own.
pub proof fn law_transaction(
    s: State,
    suppress: bool,
    body: spec_fn(State) -> State,
    host: Host,
    fuel: nat,
)
    requires
        ends_transactions(host),
        body(s.enter(suppress)).local.depth == s.enter(suppress).local.depth,
    ensures
        s.enter(suppress).local.suppress == (s.local.suppress || suppress),
        s.enter(suppress).local.depth > 0,
        ({
            let after = body(s.enter(suppress)).exit(s.local.suppress);
            let t = drive::drive(
                after,
                body(s.enter(suppress)).local.frames.len(),
                host,
                fuel,
            );
            &&& same_transactions(s, after)
            &&& same_transactions(s, t)
        }),
{
    let after = body(s.enter(suppress)).exit(s.local.suppress);
    let n = body(s.enter(suppress)).local.frames.len();
    assert(same_transactions(s, after));
    lemma_drive_transactions(after, n, host, fuel);
}

/// A transaction inside another one ends itself: so what is said of the function of a
/// transaction holds of one that runs transactions of its own, one inside the other.
pub proof fn law_transactions_nest(
    s: State,
    suppress: bool,
    body: spec_fn(State) -> State,
)
    requires
        forall|u: State| (#[trigger] body(u)).local.depth == u.local.depth,
    ensures
        body(s.enter(suppress)).exit(s.local.suppress).local.depth == s.local.depth,
        body(s.enter(suppress)).exit(s.local.suppress).local.suppress == s.local.suppress,
{
}

// ---------------------------------------------------------------------------
// Scheduled processing
// ---------------------------------------------------------------------------

/// A flush leaves processing scheduled or not, as it is.
#[verifier::spinoff_prover]
#[verifier::rlimit(40)]
proof fn lemma_flush_scheduled(s: State, depth: nat, host: Host, fuel: nat)
    requires
        host.orderly(),
        schedules_nothing(host),
        drive::flushing(s, depth),
        drive::all_tame(s, depth),
    ensures
        drive::drive(s, depth, host, fuel).local.scheduled == s.local.scheduled,
    decreases fuel,
{
    if fuel > 0 {
        let n = drive::advance(s, host);
        if s.local.frames.len() > depth + 1 {
            assert(drive::tame(s.local.frames[s.local.frames.len() - 1]));
        } else {
            assert(s.local.frames.last() == s.local.frames[depth as int]);
        }
        lemma_advance_flags(s, host);
        drive::lemma_stays_tame(s, depth, host);
        drive::lemma_flush_goes_on(s, depth, host);
        if drive::flushing(n, depth) {
            lemma_flush_scheduled(n, depth, host, (fuel - 1) as nat);
        }
    }
}

/// Processing is scheduled by a call that asks for it, and by an emit outside of
/// transactions and effects, however often; it stays so until a flush, and is not any more
/// when that is over, nor while it is under way, if no callback schedules it. An emit in a
/// transaction or an effect leaves it as it was.
pub proof fn law_scheduled(s: State, g: SignalId, from_ui: bool, host: Host, fuel: nat)
    requires
        s.wf(),
        host.orderly(),
        schedules_nothing(host),
    ensures
        s.schedule().local.scheduled,
        s.schedule().schedule().local.scheduled,
        s.local.depth == 0 && s.local.current is None ==> s.emit(g, from_ui).local.scheduled,
        s.local.depth > 0 || s.local.current is Some ==> s.emit(g, from_ui).local.scheduled
            == s.local.scheduled,
        s.local.scheduled ==> s.emit(g, from_ui).local.scheduled,
        !drive::drive(s.flush(), s.local.frames.len(), host, fuel).local.scheduled,
{
    emit::law_emit_defers(s, g, from_ui);
    lemma_flush_scheduled(s.flush(), s.local.frames.len(), host, fuel);
}

} // verus!
