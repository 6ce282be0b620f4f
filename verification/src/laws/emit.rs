//! What an emit does, from the outside.
use vstd::prelude::*;

use crate::arena::effect_arena::EffectId;
use crate::arena::effect_arena::ReactiveState;
use crate::arena::signal_arena::SignalId;
use crate::laws::links;
use crate::laws::push;
use crate::laws::valid;
use crate::model;
use crate::model::facts;
use crate::model::graph;
use crate::model::State;

verus! {

/// Scheduling touches neither arena, nor the pending set, nor any subscription.
proof fn lemma_schedule_if_idle(n: State)
    ensures
        ({
            let t = n.schedule_if_idle();
            &&& t.effects == n.effects
            &&& t.signals == n.signals
            &&& t.pending == n.pending
            &&& t.writers == n.writers
            &&& t.children == n.children
            &&& t.signal_gens == n.signal_gens
            &&& t.effect_gens == n.effect_gens
            &&& forall|g: SignalId| #[trigger] t.writers_of(g) == n.writers_of(g)
            &&& forall|e: EffectId| #[trigger] t.has_effect(e) == n.has_effect(e)
            &&& forall|e: EffectId| #[trigger] t.state_of(e) == n.state_of(e)
            &&& forall|g: SignalId| #[trigger] t.subscribers(g) == n.subscribers(g)
        }),
{
}

/// The state in which the writer of a change has been noted, and nothing else.
pub open spec fn noted(s: State, g: SignalId, from_ui: bool) -> State {
    s.register_writer(g, s.counts_as_ui(from_ui))
}

/// `x` is a subscriber that is told of a change.
pub open spec fn is_told(s: State, g: SignalId, from_ui: bool, x: EffectId) -> bool {
    push::told(
        noted(s, g, from_ui),
        noted(s, g, from_ui).subscribers(g),
        s.counts_as_ui(from_ui),
        x,
    )
}

/// What an emit makes of the state in which the writer has been noted.
proof fn lemma_emit(s: State, g: SignalId, from_ui: bool)
    requires
        s.wf(),
    ensures
        noted(s, g, from_ui).wf(),
        s.anchored() ==> noted(s, g, from_ui).anchored(),
        push::notified(
            noted(s, g, from_ui),
            noted(s, g, from_ui).subscribers(g),
            s.counts_as_ui(from_ui),
            noted(s, g, from_ui).notify_subscribers(g, s.counts_as_ui(from_ui)),
        ),
{
    let ui = s.counts_as_ui(from_ui);
    valid::lemma_register_writer(s, g, ui);
    let r = noted(s, g, from_ui);
    push::lemma_notify_list(r, r.subscribers(g), ui);
}

/// Every subscriber that is told of a change is Dirty after it, and pending if it was
/// not Dirty before, unless it is gone with a parent that was told too.
pub proof fn law_emit_marks_subscribers(s: State, g: SignalId, from_ui: bool, x: EffectId)
    requires
        s.wf(),
        is_told(s, g, from_ui, x),
        s.emit(g, from_ui).has_effect(x),
    ensures
        s.emit(g, from_ui).state_of(x) is Dirty,
        noted(s, g, from_ui).state_of(x) !is Dirty ==> s.emit(g, from_ui).pending.contains(x),
{
    let r = noted(s, g, from_ui);
    let n = r.notify_subscribers(g, s.counts_as_ui(from_ui));
    lemma_emit(s, g, from_ui);
    lemma_schedule_if_idle(n);
    assert(n.has_effect(x));
}

/// After a change, whoever depends on an effect that was told of it is not Clean.
pub proof fn law_emit_reaches_dependents(
    s: State,
    g: SignalId,
    from_ui: bool,
    x: EffectId,
    y: EffectId,
)
    requires
        s.wf(),
        is_told(s, g, from_ui, x),
        s.emit(g, from_ui).successors(x).contains(y),
        s.emit(g, from_ui).has_effect(y),
    ensures
        s.emit(g, from_ui).state_of(y) !is Clean,
{
    let r = noted(s, g, from_ui);
    let n = r.notify_subscribers(g, s.counts_as_ui(from_ui));
    lemma_emit(s, g, from_ui);
    lemma_schedule_if_idle(n);
    facts::lemma_same_successors(n, s.emit(g, from_ui), x);
    assert(n.has_effect(y));
    assert(n.successors(x).contains(y));
}

/// A change touches only what depends on the signal: an effect that is neither told of
/// it, nor depends on one that is, nor descends from one that is, stays as it is.
pub proof fn law_emit_spares_the_rest(s: State, g: SignalId, from_ui: bool, e: EffectId)
    requires
        s.wf(),
        noted(s, g, from_ui).has_effect(e),
        !is_told(s, g, from_ui, e),
        !push::downstream(
            noted(s, g, from_ui),
            noted(s, g, from_ui).subscribers(g),
            s.counts_as_ui(from_ui),
            e,
        ),
        !push::below_told(
            noted(s, g, from_ui),
            noted(s, g, from_ui).subscribers(g),
            s.counts_as_ui(from_ui),
            e,
        ),
    ensures
        s.emit(g, from_ui).has_effect(e),
        s.emit(g, from_ui).effect(e) == noted(s, g, from_ui).effect(e),
{
    let r = noted(s, g, from_ui);
    let n = r.notify_subscribers(g, s.counts_as_ui(from_ui));
    lemma_emit(s, g, from_ui);
    lemma_schedule_if_idle(n);
    assert(n.has_effect(e));
    assert(n.state_of(e) == r.state_of(e));
}

/// While a change spreads, states go up: Clean, Check, Dirty. None goes down.
pub proof fn law_emit_never_downgrades(s: State, g: SignalId, from_ui: bool, e: EffectId)
    requires
        s.wf(),
        s.emit(g, from_ui).has_effect(e),
    ensures
        s.has_effect(e),
        graph::rank(s.state_of(e)) <= graph::rank(s.emit(g, from_ui).state_of(e)),
        s.pending.contains(e) ==> s.emit(g, from_ui).pending.contains(e),
        s.state_of(e) != s.emit(g, from_ui).state_of(e) ==> s.emit(g, from_ui).pending.contains(e),
{
    let r = noted(s, g, from_ui);
    let n = r.notify_subscribers(g, s.counts_as_ui(from_ui));
    lemma_emit(s, g, from_ui);
    lemma_schedule_if_idle(n);
    assert(n.has_effect(e));
    assert(r.has_effect(e));
}

/// An effect that is not told of changes from the UI is not made Dirty by one; nor by any
/// change while UI updates are suppressed.
pub proof fn law_emit_from_ui_filters(s: State, g: SignalId, from_ui: bool, e: EffectId)
    requires
        s.wf(),
        from_ui || s.local.suppress,
        s.is_ui_only(e),
        s.emit(g, from_ui).has_effect(e),
    ensures
        s.emit(g, from_ui).state_of(e) is Dirty ==> s.state_of(e) is Dirty,
{
    let r = noted(s, g, from_ui);
    let n = r.notify_subscribers(g, s.counts_as_ui(from_ui));
    lemma_emit(s, g, from_ui);
    lemma_schedule_if_idle(n);
    assert(n.has_effect(e));
    assert(r.is_ui_only(e));
    assert(r.state_of(e) == s.state_of(e));
}

/// No effect runs during an emit. Processing is scheduled, unless a transaction is open
/// or an effect runs: then it is left as it was.
pub proof fn law_emit_defers(s: State, g: SignalId, from_ui: bool)
    requires
        s.wf(),
    ensures
        s.emit(g, from_ui).local.frames == s.local.frames,
        s.emit(g, from_ui).local.current == s.local.current,
        s.local.depth == 0 && s.local.current is None ==> s.emit(g, from_ui).local.scheduled,
        s.local.depth > 0 || s.local.current is Some ==> s.emit(g, from_ui).local.scheduled
            == s.local.scheduled && s.emit(g, from_ui).notice == s.notice,
{
    lemma_emit(s, g, from_ui);
}

/// An effect that reads and writes the same signal does not notify itself: its read is
/// forgotten and reported, and it is noted as a writer.
pub proof fn law_emit_breaks_cycles(s: State, g: SignalId, from_ui: bool, e: EffectId)
    requires
        s.wf(),
        s.local.current == Some(e),
        s.has_source(e, g),
    ensures
        !s.emit(g, from_ui).has_source(e, g),
        !s.emit(g, from_ui).subscribers(g).contains(e),
        s.emit(g, from_ui).local.warning == Some((e, g)),
        s.emit(g, from_ui).has_effect(e) ==> s.emit(g, from_ui).writers_of(g).contains(e),
{
    let warned = s.with_warning(e, g);
    let apart = warned.remove_subscriber(g, e);
    let broken = apart.remove_source(e, g);
    let r = noted(s, g, from_ui);
    let n = r.notify_subscribers(g, s.counts_as_ui(from_ui));
    valid::lemma_remove_subscriber(warned, g, e);
    links::law_unlink_source(apart.links(e), g);
    links::law_link_output(broken.links(e), g, s.counts_as_ui(from_ui));
    assert(broken.has_effect(e));
    assert(!r.has_source(e, g));
    assert(r.subscribers(g) == apart.subscribers(g));
    facts::lemma_insert_once(broken.writers_of(g), e);
    assert(r.writers_of(g).contains(e));
    lemma_emit(s, g, from_ui);
    lemma_schedule_if_idle(n);
    let t = s.emit(g, from_ui);
    assert(t.writers_of(g) == n.writers_of(g));
    if t.has_effect(e) {
        assert(n.has_effect(e));
        assert(n.writers_of(g).contains(e));
        assert(n.effect(e).signals == r.effect(e).signals);
    }
    if t.subscribers(g).contains(e) {
        assert(n.subscribers(g).contains(e));
    }
}

// ---------------------------------------------------------------------------
// Debouncing
// ---------------------------------------------------------------------------

/// An effect that is invalidated again stays as it is: many invalidations are one.
pub proof fn law_invalidate_once(s: State, e: EffectId)
    requires
        s.wf(),
    ensures
        s.mark_pending(e).mark_pending(e) == s.mark_pending(e),
        s.can_mark(e) ==> s.mark_pending(e).pending.contains(e),
{
    push::lemma_mark_pending_pushed(s, e);
    if s.can_mark(e) {
        let cut = s.set_state(e, ReactiveState::Dirty).destroy_children(e);
        facts::lemma_insert_once(cut.pending, e);
    }
}

/// Check marking changes nothing where everybody is live and not Clean.
proof fn lemma_check_list_idle(s: State, list: Seq<EffectId>)
    requires
        forall|e: EffectId| #[trigger] list.contains(e) ==> s.state_of(e) !is Clean,
    ensures
        s.check_list(list) == s,
    decreases list.len(),
{
    if list.len() > 0 {
        assert(list.contains(list[0]));
        facts::lemma_check_list_step(s, list);
        let rest = list.drop_first();
        assert forall|e: EffectId| #[trigger] rest.contains(e) implies s.state_of(e) !is Clean by {
            let i = rest.index_of(e);
            assert(list[i + 1] == e);
            assert(list.contains(e));
        }
        lemma_check_list_idle(s, rest);
    }
}

/// Notifying changes nothing where everybody told is Dirty and all dependents are not
/// Clean.
proof fn lemma_notify_list_idle(s: State, list: Seq<EffectId>, from_ui: bool)
    requires
        forall|x: EffectId| #[trigger]
            push::told(s, list, from_ui, x) ==> s.state_of(x) is Dirty,
        forall|x: EffectId, y: EffectId|
            push::told(s, list, from_ui, x) && #[trigger] s.successors(x).contains(y)
                ==> s.state_of(y) !is Clean,
    ensures
        s.notify_list(list, from_ui) == s,
    decreases list.len(),
{
    if list.len() > 0 {
        let first = list[0];
        let rest = list.drop_first();
        assert(list.contains(first));
        assert forall|x: EffectId| #[trigger] push::told(s, rest, from_ui, x) implies push::told(
            s,
            list,
            from_ui,
            x,
        ) by {
            let i = rest.index_of(x);
            assert(list[i + 1] == x);
        }
        if !(from_ui && s.is_ui_only(first)) {
            assert(push::told(s, list, from_ui, first));
            assert forall|y: EffectId| #[trigger] s.successors(first).contains(
                y,
            ) implies s.state_of(y) !is Clean by {}
            assert(s.mark_pending(first) == s);
            lemma_check_list_idle(s, s.successors(first));
        }
        lemma_notify_list_idle(s, rest, from_ui);
    }
}

/// A write that has been noted already.
proof fn lemma_register_writer_idle(s: State, g: SignalId, ui: bool)
    requires
        s.local.current matches Some(e) ==> {
            &&& !s.has_source(e, g)
            &&& s.writers_of(g).contains(e)
            &&& s.has_effect(e) ==> model::link_output(s.links(e), g, ui) == s.links(e)
        },
    ensures
        s.register_writer(g, ui) == s,
{
    if let Some(e) = s.local.current {
        let same = s.add_output(e, g, ui);
        assert(same.effects =~= s.effects);
        assert(same == s);
        assert(s.add_writer(g, e).writers =~= s.writers);
    }
}

/// A second emit of the same signal changes nothing: many emits before a flush are one.
/// (An effect that its own emit destroys is the exception.)
#[verifier::spinoff_prover]
pub proof fn law_emit_twice_is_once(s: State, g: SignalId, from_ui: bool)
    requires
        s.wf(),
        s.anchored(),
        s.local.current matches Some(e) ==> s.emit(g, from_ui).has_effect(e),
    ensures
        s.emit(g, from_ui).emit(g, from_ui) == s.emit(g, from_ui),
{
    let ui = s.counts_as_ui(from_ui);
    let r = noted(s, g, from_ui);
    let n = r.notify_subscribers(g, s.counts_as_ui(from_ui));
    let t = s.emit(g, from_ui);
    lemma_emit(s, g, from_ui);
    lemma_schedule_if_idle(n);
    assert(n.anchored());
    assert(t.local.current == s.local.current);
    if let Some(e) = s.local.current {
        let broken = if s.has_source(e, g) {
            s.with_warning(e, g).remove_subscriber(g, e).remove_source(e, g)
        } else {
            s
        };
        if s.has_source(e, g) {
            links::law_unlink_source(
                s.with_warning(e, g).remove_subscriber(g, e).links(e),
                g,
            );
        }
        assert(!broken.has_source(e, g));
        links::law_link_output(broken.links(e), g, s.counts_as_ui(from_ui));
        facts::lemma_insert_once(broken.writers_of(g), e);
        assert(r.writers_of(g).contains(e));
        assert(t.writers == n.writers);
        assert(n.has_effect(e));
        assert(n.writers_of(g).contains(e));
        assert(t.writers_of(g).contains(e));
        if t.has_effect(e) {
            assert(n.has_effect(e));
            assert(r.has_effect(e));
            assert(r.links(e) == model::link_output(broken.links(e), g, ui));
            assert(t.links(e) == r.links(e));
            assert(t.has_source(e, g) == r.has_source(e, g));
            assert(!t.has_source(e, g));
        }
    }
    lemma_register_writer_idle(t, g, ui);
    let list = t.subscribers(g);
    assert(list == n.subscribers(g));
    assert forall|x: EffectId| #[trigger] push::told(t, list, ui, x) implies t.state_of(x)
        is Dirty && push::told(r, r.subscribers(g), ui, x) by {
        assert(n.subscribers(g).contains(x));
        assert(n.has_source(x, g));
        assert(n.has_effect(x));
        assert(r.subscribers(g).contains(x));
        assert(r.is_ui_only(x) == t.is_ui_only(x));
        assert(push::told(r, r.subscribers(g), ui, x));
        assert(n.state_of(x) is Dirty);
    }
    assert forall|x: EffectId, y: EffectId|
        push::told(t, list, ui, x) && #[trigger] t.successors(x).contains(
            y,
        ) implies t.state_of(y) !is Clean by {
        facts::lemma_same_successors(n, t, x);
        assert(n.successors(x).contains(y));
        push::law_successors(n, x, y);
        let h = choose|h: SignalId|
            n.outputs(x).contains(h) && #[trigger] n.subscribers(h).contains(y);
        assert(n.has_source(y, h));
        assert(n.has_effect(y));
        assert(push::told(r, r.subscribers(g), ui, x));
        assert(n.state_of(y) !is Clean);
    }
    lemma_notify_list_idle(t, list, ui);
    assert(t.notify_subscribers(g, ui) == t);
    assert(t.schedule_if_idle() == t);
}

} // verus!
