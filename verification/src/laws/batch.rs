//! Transactions: what their two ends touch, and what has happened when they are over.
use vstd::prelude::*;

use crate::arena::effect_arena::EffectId;
use crate::arena::signal_arena::SignalId;
use crate::laws::change;
use crate::laws::drive;
use crate::laws::drive::Host;
use crate::laws::emit;
use crate::laws::queue;
use crate::laws::valid;
use crate::model::FrameModel;
use crate::model::LocalModel;
use crate::model::State;

verus! {

/// To enter a transaction counts it, and may suppress UI updates. It changes nothing else:
/// what was pending before it still is, and so is everything else as it was.
pub proof fn law_enter_touches_nothing_else(s: State, suppress: bool)
    ensures
        ({
            let t = s.enter(suppress);
            &&& t.pending == s.pending
            &&& t.effects == s.effects
            &&& t.effect_gens == s.effect_gens
            &&& t.signals == s.signals
            &&& t.signal_gens == s.signal_gens
            &&& t.writers == s.writers
            &&& t.children == s.children
            &&& t.parents == s.parents
            &&& t.attached == s.attached
            &&& t.notice == s.notice
            &&& t.local.current == s.local.current
            &&& t.local.frames == s.local.frames
            &&& t.local.scheduled == s.local.scheduled
            &&& t.local.processed == s.local.processed
            &&& t.local.updated == s.local.updated
            &&& t.local.budget == s.local.budget
            &&& t.local.warning == s.local.warning
            &&& t.local.depth == s.local.depth + 1
            &&& t.local.suppress <==> s.local.suppress || suppress
            &&& s.local.depth == 0 ==> t.active == s.active + 1
            &&& s.local.depth > 0 ==> t.active == s.active
            &&& s.wf() ==> t.wf()
            &&& s.anchored() ==> t.anchored()
            &&& queue::settled(s) ==> queue::settled(t)
        }),
{
    let t = s.enter(suppress);
    if queue::settled(s) {
        assert forall|g: SignalId, e: EffectId| #[trigger]
            t.subscribers(g).contains(e) && t.state_of(e) !is Clean implies queue::queued(t, e) by {
            assert(s.subscribers(g).contains(e));
            assert(queue::queued(s, e));
            if !s.pending.contains(e) && !queue::deferred(s, e) {
                let k = choose|k: int|
                    0 <= k < s.local.frames.len() && queue::holds(#[trigger] s.local.frames[k], e);
                assert(t.local.frames[k] == s.local.frames[k]);
            }
        }
    }
    if s.anchored() {
        assert forall|g: SignalId, e: EffectId| #[trigger]
            t.subscribers(g).contains(e) implies t.has_source(e, g) by {
            assert(s.subscribers(g).contains(e));
            assert(s.has_source(e, g));
        }
    }
}

/// The end of a transaction counts it off and gives the suppression of UI updates back. Only
/// the end of the outermost one does more: one thread less is in a transaction, what was
/// scheduled is done here, and the processing of what is pending begins, after which
/// processing is scheduled. Nobody's state changes at once, nothing stops to be pending, and
/// nothing is overlooked.
pub proof fn law_exit_touches_nothing_else(s: State, suppress: bool)
    ensures
        ({
            let t = s.exit(suppress);
            &&& t.pending == s.pending
            &&& t.effects == s.effects
            &&& t.effect_gens == s.effect_gens
            &&& t.signals == s.signals
            &&& t.signal_gens == s.signal_gens
            &&& t.writers == s.writers
            &&& t.children == s.children
            &&& t.parents == s.parents
            &&& t.attached == s.attached
            &&& t.notice == s.notice
            &&& t.local.current == s.local.current
            &&& t.local.processed == s.local.processed
            &&& t.local.updated == s.local.updated
            &&& t.local.budget == s.local.budget
            &&& t.local.warning == s.local.warning
            &&& t.local.suppress == suppress
            &&& s.local.depth > 0 ==> t.local.depth + 1 == s.local.depth
            &&& s.local.depth == 0 ==> t.local.depth == 0
            &&& s.local.depth > 1 ==> {
                &&& t.active == s.active
                &&& t.local.scheduled == s.local.scheduled
                &&& t.local.frames == s.local.frames
            }
            &&& s.local.depth <= 1 ==> {
                &&& s.active > 0 ==> t.active + 1 == s.active
                &&& s.active == 0 ==> t.active == 0
                &&& !t.local.scheduled
                &&& t.local.frames == s.local.frames.push(FrameModel::Schedule).push(
                    FrameModel::Flush { ids: Seq::empty(), next: 0, total: 0 },
                )
            }
            &&& s.wf() ==> t.wf()
            &&& s.anchored() ==> t.anchored()
            &&& queue::settled(s) ==> queue::settled(t)
        }),
{
    let t = s.exit(suppress);
    if queue::settled(s) {
        assert forall|g: SignalId, e: EffectId| #[trigger]
            t.subscribers(g).contains(e) && t.state_of(e) !is Clean implies queue::queued(t, e) by {
            assert(s.subscribers(g).contains(e));
            assert(queue::queued(s, e));
            if !s.pending.contains(e) && !queue::deferred(s, e) {
                let k = choose|k: int|
                    0 <= k < s.local.frames.len() && queue::holds(#[trigger] s.local.frames[k], e);
                assert(t.local.frames[k] == s.local.frames[k]);
            }
        }
    }
    if s.anchored() {
        assert forall|g: SignalId, e: EffectId| #[trigger]
            t.subscribers(g).contains(e) implies t.has_source(e, g) by {
            assert(s.subscribers(g).contains(e));
            assert(s.has_source(e, g));
        }
    }
}

/// What happens in a transaction: it ends the transactions and the activities it begins, and
/// an effect that is pending and waits to run is still so after it.
pub open spec fn patient(body: spec_fn(State) -> State, e: EffectId) -> bool {
    forall|u: State|
        {
            let v = #[trigger] body(u);
            &&& v.local.depth == u.local.depth
            &&& v.local.frames == u.local.frames
            &&& u.wf() ==> v.wf()
            &&& u.pending.contains(e) && drive::awaits_run(u, e) ==> v.pending.contains(e)
                && drive::awaits_run(v, e)
        }
}

/// A transaction loses nothing that was to be done before it: an effect that is pending and
/// Dirty when the outermost transaction is entered, and has its callback, has run when the
/// end of the transaction has been processed, unless it is destroyed.
pub proof fn law_transaction_runs_what_was_pending(
    s: State,
    suppress: bool,
    body: spec_fn(State) -> State,
    host: Host,
    fuel: nat,
    e: EffectId,
)
    requires
        host.orderly(),
        host.careful(),
        s.wf(),
        s.local.depth == 0,
        s.pending.contains(e),
        drive::awaits_run(s, e),
        patient(body, e),
        drive::lives_on(
            body(s.enter(suppress)).exit(s.local.suppress),
            s.local.frames.len(),
            host,
            fuel,
            e,
        ),
        drive::drive(
            body(s.enter(suppress)).exit(s.local.suppress),
            s.local.frames.len(),
            host,
            fuel,
        ).local.frames.len() <= s.local.frames.len(),
    ensures
        drive::runs(
            body(s.enter(suppress)).exit(s.local.suppress),
            s.local.frames.len(),
            host,
            fuel,
        ).contains(e),
{
    let u = s.enter(suppress);
    law_enter_touches_nothing_else(s, suppress);
    assert(drive::awaits_run(u, e));
    drive::law_transaction_runs_what_is_pending(body(u), s.local.suppress, host, fuel, e);
}

/// A transaction in which nothing happens leaves everything as it was before it, but for the
/// processing of what is pending where it is the outermost one.
pub proof fn law_empty_transaction(s: State, suppress: bool)
    ensures
        s.local.depth > 0 ==> s.enter(suppress).exit(s.local.suppress) == s,
        s.local.depth == 0 ==> s.enter(suppress).exit(s.local.suppress) == (State {
            local: LocalModel {
                scheduled: false,
                frames: s.local.frames.push(FrameModel::Schedule).push(
                    FrameModel::Flush { ids: Seq::empty(), next: 0, total: 0 },
                ),
                ..s.local
            },
            ..s
        }),
{
}

// ---------------------------------------------------------------------------
// From a change to its effects
// ---------------------------------------------------------------------------

/// After an emit, a subscriber that was told, has its callback and lives on waits to run and
/// is pending.
proof fn lemma_emit_makes_wait(s: State, g: SignalId, from_ui: bool, x: EffectId)
    requires
        s.wf(),
        s.subscribers(g).contains(x),
        s.local.current != Some(x),
        !((from_ui || s.local.suppress) && s.is_ui_only(x)),
        s.has_callback(x),
        s.state_of(x) is Dirty ==> s.pending.contains(x),
        s.emit(g, from_ui).has_effect(x),
    ensures
        s.emit(g, from_ui).wf(),
        drive::awaits_run(s.emit(g, from_ui), x),
        s.emit(g, from_ui).pending.contains(x),
{
    let t = s.emit(g, from_ui);
    valid::law_emit_keeps_validity(s, g, from_ui);
    emit::law_emit_never_downgrades(s, g, from_ui, x);
    change::law_emit_reaches_every_subscriber(s, g, from_ui, x);
    change::law_emit_spares_others(s, g, from_ui);
    assert(t.effect(x).callback == s.effect(x).callback);
}

/// A change runs its subscribers with the next flush: whoever is subscribed to a signal when
/// it is emitted has run when the flush is over, if it is told of such changes, has its
/// callback, is not the current effect and is not destroyed.
pub proof fn law_emit_and_flush_run_the_subscribers(
    s: State,
    g: SignalId,
    from_ui: bool,
    host: Host,
    fuel: nat,
    x: EffectId,
)
    requires
        host.orderly(),
        host.careful(),
        s.wf(),
        s.subscribers(g).contains(x),
        s.local.current != Some(x),
        !((from_ui || s.local.suppress) && s.is_ui_only(x)),
        s.has_callback(x),
        s.state_of(x) is Dirty ==> s.pending.contains(x),
        drive::lives_on(s.emit(g, from_ui).flush(), s.local.frames.len(), host, fuel, x),
        drive::drive(
            s.emit(g, from_ui).flush(),
            s.local.frames.len(),
            host,
            fuel,
        ).local.frames.len() <= s.local.frames.len(),
    ensures
        drive::runs(s.emit(g, from_ui).flush(), s.local.frames.len(), host, fuel).contains(x),
{
    let t = s.emit(g, from_ui);
    assert(t.flush().has_effect(x));
    assert(t.has_effect(x));
    lemma_emit_makes_wait(s, g, from_ui, x);
    emit::law_emit_defers(s, g, from_ui);
    drive::law_flush_runs_what_is_pending(t, host, fuel, x);
}

/// A change in a transaction runs its subscribers at the end of the transaction, in the same
/// way, whatever else happens in it.
pub proof fn law_emit_in_a_transaction_runs_the_subscribers(
    s: State,
    suppress: bool,
    g: SignalId,
    from_ui: bool,
    body: spec_fn(State) -> State,
    host: Host,
    fuel: nat,
    x: EffectId,
)
    requires
        host.orderly(),
        host.careful(),
        s.wf(),
        s.local.depth == 0,
        s.subscribers(g).contains(x),
        s.local.current != Some(x),
        !((from_ui || suppress || s.local.suppress) && s.is_ui_only(x)),
        s.has_callback(x),
        s.state_of(x) is Dirty ==> s.pending.contains(x),
        s.enter(suppress).emit(g, from_ui).has_effect(x),
        patient(body, x),
        drive::lives_on(
            body(s.enter(suppress).emit(g, from_ui)).exit(s.local.suppress),
            s.local.frames.len(),
            host,
            fuel,
            x,
        ),
        drive::drive(
            body(s.enter(suppress).emit(g, from_ui)).exit(s.local.suppress),
            s.local.frames.len(),
            host,
            fuel,
        ).local.frames.len() <= s.local.frames.len(),
    ensures
        drive::runs(
            body(s.enter(suppress).emit(g, from_ui)).exit(s.local.suppress),
            s.local.frames.len(),
            host,
            fuel,
        ).contains(x),
{
    let u = s.enter(suppress);
    let t = u.emit(g, from_ui);
    law_enter_touches_nothing_else(s, suppress);
    assert(u.subscribers(g) == s.subscribers(g));
    assert(u.has_callback(x) && u.state_of(x) == s.state_of(x));
    assert(u.is_ui_only(x) == s.is_ui_only(x));
    lemma_emit_makes_wait(u, g, from_ui, x);
    emit::law_emit_defers(u, g, from_ui);
    change::law_emit_spares_others(u, g, from_ui);
    drive::law_transaction_runs_what_is_pending(body(t), s.local.suppress, host, fuel, x);
}

} // verus!
