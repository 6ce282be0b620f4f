//! Transactions, reads that are not tracked, identifiers that are stale, new effects,
//! computed values.
use vstd::prelude::*;

use crate::arena::effect_arena::EffectFn;
use crate::arena::effect_arena::EffectId;
use crate::arena::effect_arena::ReactiveState;
use crate::arena::signal_arena::SignalId;
use crate::laws::links;
use crate::laws::push;
use crate::lists;
use crate::model;
use crate::model::facts;
use crate::model::graph;
use crate::model::EffectModel;
use crate::model::FrameModel;
use crate::model::RunKind;
use crate::model::State;

verus! {

// ---------------------------------------------------------------------------
// Transactions
// ---------------------------------------------------------------------------

/// Whatever happens in a transaction, as long as transactions in it are ended, the depth
/// and the suppression of UI updates are afterwards what they were before it. Only the end
/// of the outermost one lets the effect loop go on, and begins to process what is pending.
pub proof fn law_transaction_restores(s: State, suppress: bool, u: State)
    requires
        u.local.depth == s.enter(suppress).local.depth,
    ensures
        u.exit(s.local.suppress).local.depth == s.local.depth,
        u.exit(s.local.suppress).local.suppress == s.local.suppress,
        u.exit(s.local.suppress).effects == u.effects,
        u.exit(s.local.suppress).pending == u.pending,
        s.local.depth > 0 ==> u.exit(s.local.suppress).local.frames == u.local.frames && u.exit(
            s.local.suppress,
        ).active == u.active,
        s.local.depth == 0 ==> u.exit(s.local.suppress).local.frames == u.local.frames.push(
            FrameModel::Schedule,
        ).push(FrameModel::Flush { ids: Seq::empty(), next: 0, total: 0 }),
        s.local.depth == 0 && u.active == s.enter(suppress).active ==> u.exit(
            s.local.suppress,
        ).active == s.active,
{
}

/// Within a transaction UI updates are suppressed if they were before, or if it asks for
/// that; a transaction inside cannot lift it.
pub proof fn law_suppression_is_sticky(s: State, suppress: bool)
    ensures
        s.enter(suppress).local.suppress == (s.local.suppress || suppress),
        s.enter(suppress).local.depth > 0,
        s.enter(suppress).active > 0 || s.local.depth > 0,
{
}

// ---------------------------------------------------------------------------
// Reads
// ---------------------------------------------------------------------------

/// A read without a current effect leaves no trace.
pub proof fn law_untracked_read(s: State, g: SignalId)
    ensures
        s.with_current(None).track(g, s.with_current(None).local.current) == s.with_current(None),
        s.with_current(None).with_current(s.local.current) == s,
{
}

/// A read by a live effect of a live signal makes the one a source and the other a
/// subscriber, and changes no other dependency.
pub proof fn law_track_subscribes(s: State, g: SignalId, e: EffectId)
    requires
        s.has_effect(e),
        s.has_signal(g),
    ensures
        s.track(g, Some(e)).has_source(e, g),
        s.track(g, Some(e)).subscribers(g).contains(e),
        forall|h: SignalId| h != g ==> #[trigger] s.track(g, Some(e)).subscribers(h)
            == s.subscribers(h),
        forall|h: SignalId, x: EffectId|
            !(h == g && x == e) ==> #[trigger] s.track(g, Some(e)).has_source(x, h)
                == s.has_source(x, h),
        forall|x: EffectId| #[trigger] s.track(g, Some(e)).state_of(x) == s.state_of(x),
{
    links::law_link_source(s.effect(e).signals, g);
    let read = s.add_source(e, g);
    facts::lemma_insert_once(read.subscribers(g), e);
}

/// A second read of the same signal changes nothing.
pub proof fn law_track_twice_is_once(s: State, g: SignalId, e: EffectId)
    ensures
        s.track(g, Some(e)).track(g, Some(e)) == s.track(g, Some(e)),
{
    let t = s.track(g, Some(e));
    let read = s.add_source(e, g);
    facts::lemma_insert_once(read.subscribers(g), e);
    if s.has_effect(e) {
        lemma_link_source_twice(s.links(e), g);
    }
    let again = t.add_source(e, g);
    assert(t.links(e) == read.links(e));
    assert(again.effects =~= t.effects);
    assert(again == t);
    assert(again.add_subscriber(g, e).signals =~= t.signals);
}

/// A link that is marked as read twice.
proof fn lemma_link_source_twice(l: Seq<model::Link>, g: SignalId)
    ensures
        model::link_source(model::link_source(l, g), g) == model::link_source(
            l,
            g,
        ),
{
    let t = model::link_source(l, g);
    if model::linked(l, g) {
        let k = choose|k: int| 0 <= k < l.len() && (#[trigger] l[k]).0 == g;
        assert(t[k].0 == g);
    } else {
        assert(t[l.len() as int].0 == g);
        assert forall|i: int| 0 <= i < l.len() implies (#[trigger] t[i]).0 != g by {
            assert(t[i] == l[i]);
        }
    }
    assert(model::linked(t, g));
    assert forall|i: int| 0 <= i < t.len() implies model::read_mark(#[trigger] t[i], g)
        == t[i] by {}
    assert(model::link_source(t, g) =~= t);
}

/// Unsubscribing undoes a subscription.
pub proof fn law_unsubscribe_undoes_subscribe(s: State, g: SignalId, e: EffectId)
    requires
        !s.subscribers(g).contains(e),
    ensures
        s.add_subscriber(g, e).remove_subscriber(g, e) == s,
{
    if s.has_signal(g) {
        let subs = s.subscribers(g);
        lists::lemma_filter_push(subs, e, model::other_than(e));
        facts::lemma_without_absent(subs, e);
        assert(s.add_subscriber(g, e).remove_subscriber(g, e).signals =~= s.signals);
    }
}

/// Forgetting a source undoes a read of a signal that was neither read nor written.
pub proof fn law_remove_source_undoes_add_source(s: State, g: SignalId, e: EffectId)
    requires
        !model::linked(s.links(e), g),
    ensures
        s.add_source(e, g).remove_source(e, g) == s,
{
    if s.has_effect(e) {
        let l = s.links(e);
        let more = model::link_source(l, g);
        let keep = model::stays_without(g);
        let change = model::unread_of(g);
        lists::lemma_filter_push(l, more.last(), keep);
        assert forall|i: int| 0 <= i < l.len() implies keep(#[trigger] l[i]) && change(l[i])
            == l[i] by {
            assert(l[i].0 != g);
        }
        facts::lemma_filter_all(l, keep);
        assert(l.map_values(change) =~= l);
        assert(model::unlink_source(more, g) == l);
        assert(s.add_source(e, g).remove_source(e, g).effects =~= s.effects);
    }
}

// ---------------------------------------------------------------------------
// Stale identifiers
// ---------------------------------------------------------------------------

/// Access through the identifier of an effect that is gone finds nothing and changes
/// nothing.
pub proof fn law_stale_effect(
    s: State,
    e: EffectId,
    g: SignalId,
    to: ReactiveState,
    f: EffectFn,
)
    requires
        !s.has_effect(e),
    ensures
        s.state_of(e) is Clean,
        !s.has_source(e, g),
        !s.has_callback(e),
        !s.is_skippable(e),
        !s.is_ui_only(e),
        s.set_state(e, to) == s,
        s.upgrade_state(e, to) == s,
        s.add_source(e, g) == s,
        s.remove_source(e, g) == s,
        s.clear_sources(e) == s,
        s.add_output(e, g, false) == s,
        s.put_callback(e, Some(f)) == s,
        s.mark_pending(e) == s,
{
}

/// Access through the identifier of a signal that is gone finds nothing and changes
/// nothing.
pub proof fn law_stale_signal(s: State, g: SignalId, e: EffectId)
    requires
        !s.has_signal(g),
    ensures
        s.subscribers(g) == Seq::<EffectId>::empty(),
        s.add_subscriber(g, e) == s,
        s.remove_subscriber(g, e) == s,
        s.remove_signal(g) == s,
        s.notify_subscribers(g, false) == s,
{
}

/// An effect that is removed is stale, and no other effect is touched.
pub proof fn law_remove_effect(s: State, e: EffectId, x: EffectId)
    ensures
        !s.remove_effect(e).has_effect(e),
        !s.remove_effect(e).parents.contains_key(e),
        !s.remove_effect(e).children.contains_key(e),
        x != e ==> s.remove_effect(e).has_effect(x) == s.has_effect(x),
        x != e && s.has_effect(x) ==> s.remove_effect(e).effect(x) == s.effect(x),
{
}

// ---------------------------------------------------------------------------
// New effects
// ---------------------------------------------------------------------------

/// A new effect takes a slot that was vacant: its identifier was stale before and is live
/// now. Every other identifier is as live as it was: one that is stale stays so, even if
/// it names the same slot.
pub proof fn law_create_is_fresh(
    s: State,
    key: usize,
    e: EffectId,
    m: EffectModel,
    x: EffectId,
)
    requires
        s.vacant_effect(key as nat),
        key <= u32::MAX,
        e == s.effect_at(key as u32),
    ensures
        !s.has_effect(e),
        s.create(key as nat, e, m).has_effect(e),
        s.create(key as nat, e, m).effect(e) == m,
        x != e ==> s.create(key as nat, e, m).has_effect(x) == s.has_effect(x),
        x != e && s.has_effect(x) ==> s.create(key as nat, e, m).effect(x) == s.effect(x),
{
}

/// Whoever comes into the slot of an effect that has been removed has another
/// identifier: the old one stays stale. (A slot that has had 2^64 occupants begins anew.)
pub proof fn law_stale_stays_stale(s: State, e: EffectId, key: usize, m: EffectModel)
    requires
        s.has_effect(e),
        e.1 < u64::MAX,
        s.remove_effect(e).vacant_effect(key as nat),
        key <= u32::MAX,
    ensures
        s.remove_effect(e).effect_at(key as u32) != e,
        !s.remove_effect(e).create(key as nat, s.remove_effect(e).effect_at(key as u32), m).has_effect(
            e,
        ),
{
    let t = s.remove_effect(e);
    assert(graph::gen_at(t.effect_gens, e.0 as int) == graph::next_gen(e.1));
}

/// The handle of an effect that has been destroyed is harmless: to give it up touches
/// nobody who has its slot now.
pub proof fn law_stale_handle_is_harmless(s: State, e: EffectId, x: EffectId)
    requires
        s.wf(),
        !s.has_effect(e),
    ensures
        s.dispose_effect(e) == s.pending_remove(e),
        s.dispose_effect(e).has_effect(x) == s.has_effect(x),
        s.has_effect(x) ==> s.dispose_effect(e).effect(x) == s.effect(x),
        forall|g: SignalId| #[trigger] s.dispose_effect(e).subscribers(g) == s.subscribers(g),
        x != e ==> s.dispose_effect(e).pending.contains(x) == s.pending.contains(x),
{
    facts::lemma_swap_removed(s.pending, e);
}

/// An effect that is created while another runs is its child.
pub proof fn law_created_under_the_current_effect(
    s: State,
    key: nat,
    e: EffectId,
    m: EffectModel,
    parent: EffectId,
)
    requires
        s.local.current == Some(parent),
    ensures
        s.create(key, e, m).parents.contains_key(e),
        s.create(key, e, m).parents[e] == parent,
        s.create(key, e, m).children_of(parent) == s.children_of(parent).push(e),
        s.create(key, e, m).children_of(parent).contains(e),
{
    let t = s.create(key, e, m);
    assert(t.children_of(parent)[s.children_of(parent).len() as int] == e);
}

// ---------------------------------------------------------------------------
// Computed values
// ---------------------------------------------------------------------------

/// A computed value that is up to date is not computed again when it is read; a stale one
/// is computed first, and the reader is subscribed to it in any case.
pub proof fn law_refresh(s: State, g: SignalId, e: EffectId)
    ensures
        s.state_of(e) is Clean ==> s.refresh(g, e).local.frames == s.local.frames.push(
            FrameModel::Track { signal: g, effect: s.local.current },
        ),
        s.state_of(e) !is Clean && s.local.current is None ==> s.refresh(g, e).local.frames
            == s.local.frames.push(FrameModel::Track { signal: g, effect: None }).push(
            FrameModel::Update { effect: e, skip: false },
        ),
        s.refresh(g, e).effects == s.effects,
        s.refresh(g, e).signals == s.signals,
        s.refresh(g, e).pending == s.pending,
{
}

/// The effect `e` computes the value behind the signal `g`: it has a link to it that stays
/// from run to run, and is registered as its writer.
pub open spec fn owns(s: State, e: EffectId, g: SignalId) -> bool {
    &&& s.has_effect(e)
    &&& exists|i: int|
        {
            &&& 0 <= i < s.links(e).len()
            &&& (#[trigger] s.links(e)[i]).0 == g
            &&& s.links(e)[i].1.is_output
            &&& s.links(e)[i].1.is_own
        }
    &&& s.writers_of(g).contains(e)
}

/// The effect of a computed value owns its signal.
pub proof fn law_computed_owns_its_signal(
    s: State,
    signal_key: nat,
    effect_key: usize,
    g: SignalId,
    e: EffectId,
    m: EffectModel,
    lazy: bool,
)
    requires
        s.vacant_effect(effect_key as nat),
        effect_key <= u32::MAX,
        e == s.effect_at(effect_key as u32),
    ensures
        owns(s.create_computed(signal_key, effect_key as nat, g, e, m, lazy), e, g),
{
    let t = s.create_computed(signal_key, effect_key as nat, g, e, m, lazy);
    let with_signal = s.insert_signal(signal_key, Seq::empty());
    assert(t.has_effect(e));
    assert(t.links(e) == seq![model::own_link(g)]);
    assert(t.links(e)[0].0 == g);
    facts::lemma_insert_once(s.writers_of(g), e);
}

/// It still does when it runs again.
pub proof fn law_run_keeps_ownership(s: State, e: EffectId, g: SignalId, kind: RunKind)
    requires
        s.wf(),
        owns(s, e, g),
        s.calls(e, kind),
    ensures
        owns(s.begin_run(e, kind).0, e, g),
{
    let t = s.begin_run(e, kind).0;
    let l = s.links(e);
    let i = choose|i: int|
        {
            &&& 0 <= i < l.len()
            &&& (#[trigger] l[i]).0 == g
            &&& l[i].1.is_output
            &&& l[i].1.is_own
        };
    match kind {
        RunKind::Single | RunKind::SingleThenMark => {
            let keep = |l: model::Link| l.1.is_own;
            l.lemma_filter_contains(keep, i);
            let j = l.filter(keep).index_of(l[i]);
            assert(t.links(e) == model::own_links(l));
            assert(t.links(e)[j] == model::unread(l[i]));
            let written = model::written_of(l);
            assert(!written.contains(g)) by {
                if written.contains(g) {
                    let pick = |l: model::Link| l.1.is_output && !l.1.is_own;
                    let k = written.index_of(g);
                    let kept = l.filter(pick);
                    l.lemma_filter_pred(pick, k);
                    assert(kept.contains(kept[k]));
                    l.lemma_filter_contains_rev(pick, kept[k]);
                    let n = l.index_of(kept[k]);
                    assert(l[n].0 == g && !l[n].1.is_own);
                    assert(crate::model::validity::effect_slot_wf(s.effects[e.0 as int]));
                    assert(l[n].0 != l[i].0);
                }
            }
        },
        RunKind::Now => {
            let keep = |l: model::Link| l.1.is_output;
            l.lemma_filter_contains(keep, i);
            let j = l.filter(keep).index_of(l[i]);
            assert(t.links(e) == model::unlink_sources(l));
            assert(t.links(e)[j] == model::unread(l[i]));
        },
        _ => {
            assert(t.links(e) == l);
        },
    }
}

/// Whoever reads a computed value depends on the effect that computes it, and so is marked
/// Check when a change makes that effect Dirty; and that effect is a writer of what they
/// read, and so is run first when they look at their sources.
pub proof fn law_readers_depend_on_the_computed(
    s: State,
    e: EffectId,
    g: SignalId,
    x: EffectId,
)
    requires
        owns(s, e, g),
        s.subscribers(g).contains(x),
    ensures
        s.successors(e).contains(x),
        s.writers_of(g).contains(e),
{
    links::law_outputs_are_written(s.links(e), g);
    let i = choose|i: int|
        {
            &&& 0 <= i < s.links(e).len()
            &&& (#[trigger] s.links(e)[i]).0 == g
            &&& s.links(e)[i].1.is_output
            &&& s.links(e)[i].1.is_own
        };
    assert(s.outputs(e).contains(g));
    push::law_successors(s, e, x);
}

} // verus!
