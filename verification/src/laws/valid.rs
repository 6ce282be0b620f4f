//! Validity is kept: whatever is done to a valid runtime, it is valid again.
use vstd::prelude::*;

use crate::arena::effect_arena::EffectFn;
use crate::arena::effect_arena::EffectId;
use crate::arena::effect_arena::ReactiveState;
use crate::arena::signal_arena::SignalId;
use crate::laws::links;
use crate::laws::push;
use crate::laws::tree;
use crate::model;
use crate::model::facts;
use crate::model::graph;
use crate::model::validity;
use crate::model::EffectModel;
use crate::model::FrameModel;
use crate::model::Link;
use crate::model::RunKind;
use crate::model::State;

verus! {

/// `t` is valid if `s` is: nothing is in it twice, and subscribers are anchored.
pub open spec fn keeps(s: State, t: State) -> bool {
    &&& s.wf() ==> t.wf()
    &&& s.wf() && s.anchored() ==> t.anchored()
}

/// Two slots hold the same links, or are both vacant.
pub open spec fn same_slot(a: Option<EffectModel>, b: Option<EffectModel>) -> bool {
    match (a, b) {
        (Some(m), Some(n)) => m.signals == n.signals,
        (None, None) => true,
        _ => false,
    }
}

/// `t` has the subscribers, links, writers and pending effects of `s`.
pub open spec fn same_graph(s: State, t: State) -> bool {
    &&& t.signals == s.signals
    &&& t.pending == s.pending
    &&& t.writers == s.writers
    &&& t.signal_gens == s.signal_gens
    &&& t.effect_gens == s.effect_gens
    &&& t.effects.len() == s.effects.len()
    &&& forall|i: int| 0 <= i < s.effects.len() ==> #[trigger] same_slot(s.effects[i], t.effects[i])
}

/// Validity speaks of the graph alone.
pub proof fn lemma_same_graph(s: State, t: State)
    requires
        same_graph(s, t),
    ensures
        keeps(s, t),
{
    if s.wf() {
        assert forall|i: int| 0 <= i < t.effects.len() implies validity::effect_slot_wf(
            #[trigger] t.effects[i],
        ) by {
            assert(same_slot(s.effects[i], t.effects[i]));
            assert(validity::effect_slot_wf(s.effects[i]));
        }
    }
    if s.anchored() {
        assert forall|g: SignalId, e: EffectId| #[trigger]
            t.subscribers(g).contains(e) implies t.has_source(e, g) by {
            assert(s.subscribers(g).contains(e));
            assert(s.has_source(e, g));
            assert(same_slot(s.effects[e.0 as int], t.effects[e.0 as int]));
        }
    }
}

/// Other links of one effect.
proof fn lemma_put_links(s: State, e: EffectId, l: Seq<Link>)
    requires
        s.wf() && s.has_effect(e) ==> validity::distinct_links(l),
        s.wf() && s.anchored() ==> forall|g: SignalId| #[trigger]
            s.subscribers(g).contains(e) ==> model::reads(l, g),
    ensures
        keeps(s, s.put_links(e, l)),
{
    let t = s.put_links(e, l);
    if s.wf() {
        assert forall|i: int| 0 <= i < t.effects.len() implies validity::effect_slot_wf(
            #[trigger] t.effects[i],
        ) by {
            assert(validity::effect_slot_wf(s.effects[i]));
        }
    }
    if s.wf() && s.anchored() {
        assert forall|g: SignalId, x: EffectId| #[trigger]
            t.subscribers(g).contains(x) implies t.has_source(x, g) by {
            assert(s.subscribers(g).contains(x));
            assert(s.has_source(x, g));
        }
    }
}

/// One subscriber less.
pub proof fn lemma_remove_subscriber(s: State, g: SignalId, e: EffectId)
    ensures
        keeps(s, s.remove_subscriber(g, e)),
        !s.remove_subscriber(g, e).subscribers(g).contains(e),
        forall|h: SignalId, x: EffectId| #[trigger]
            s.remove_subscriber(g, e).subscribers(h).contains(x) <==> s.subscribers(h).contains(x)
                && !(h == g && x == e),
{
    let t = s.remove_subscriber(g, e);
    facts::lemma_without_members(s.subscribers(g), e);
    if s.has_signal(g) {
        assert(t.subscribers(g) == model::without(s.subscribers(g), e));
    }
    if s.wf() {
        assert forall|i: int| 0 <= i < t.signals.len() implies validity::signal_slot_wf(
            #[trigger] t.signals[i],
        ) by {
            assert(validity::signal_slot_wf(s.signals[i]));
            if s.has_signal(g) && i == g.0 {
                facts::lemma_without_distinct(s.subscribers(g), e);
            }
        }
    }
    assert forall|h: SignalId, x: EffectId| #[trigger] t.subscribers(h).contains(x)
        <==> s.subscribers(h).contains(x) && !(h == g && x == e) by {
        if h != g {
            assert(t.subscribers(h) == s.subscribers(h));
        }
    }
    if s.anchored() {
        assert forall|h: SignalId, x: EffectId| #[trigger]
            t.subscribers(h).contains(x) implies t.has_source(x, h) by {
            assert(s.subscribers(h).contains(x));
            assert(s.has_source(x, h));
        }
    }
}

/// One writer more.
proof fn lemma_add_writer(s: State, g: SignalId, e: EffectId)
    ensures
        keeps(s, s.add_writer(g, e)),
{
    let t = s.add_writer(g, e);
    if s.wf() {
        facts::lemma_insert_once(s.writers_of(g), e);
        assert forall|k: SignalId| #[trigger]
            t.writers.contains_key(k) implies t.writers[k].no_duplicates() by {
            if k != g {
                assert(s.writers.contains_key(k));
            } else if s.writers.contains_key(k) {
                assert(s.writers_of(g).no_duplicates());
            }
        }
    }
    if s.anchored() {
        assert forall|h: SignalId, x: EffectId| #[trigger]
            t.subscribers(h).contains(x) implies t.has_source(x, h) by {
            assert(s.subscribers(h).contains(x));
            assert(s.has_source(x, h));
        }
    }
}

/// The writers alone are changed, and stay distinct.
pub proof fn lemma_unregister(s: State, outputs: Seq<SignalId>, e: EffectId)
    ensures
        keeps(s, State { writers: graph::unwritten(s.writers, outputs, e), ..s }),
{
    let t = State { writers: graph::unwritten(s.writers, outputs, e), ..s };
    tree::lemma_unregistered(s, outputs, e);
    if s.anchored() {
        assert forall|h: SignalId, x: EffectId| #[trigger]
            t.subscribers(h).contains(x) implies t.has_source(x, h) by {
            assert(s.subscribers(h).contains(x));
            assert(s.has_source(x, h));
        }
    }
}

/// An effect that is unsubscribed from its sources is subscribed to nothing.
pub proof fn lemma_unsubscribe_all(s: State, e: EffectId)
    ensures
        keeps(s, s.unsubscribe(e)),
        s.wf() && s.anchored() ==> forall|g: SignalId|
            !#[trigger] s.unsubscribe(e).subscribers(g).contains(e),
{
    let t = s.unsubscribe(e);
    tree::lemma_unsubscribe(s, e);
    if s.anchored() {
        assert forall|g: SignalId, x: EffectId| #[trigger]
            t.subscribers(g).contains(x) implies t.has_source(x, g) && x != e by {
            assert(s.subscribers(g).contains(x));
            assert(s.has_source(x, g));
            facts::lemma_reads_source(s.effect(x).signals, g);
        }
    }
}

/// A write by the current effect is noted.
#[verifier::spinoff_prover]
pub proof fn lemma_register_writer(s: State, g: SignalId, ui: bool)
    ensures
        keeps(s, s.register_writer(g, ui)),
{
    if let Some(e) = s.local.current {
        let warned = s.with_warning(e, g);
        let apart = warned.remove_subscriber(g, e);
        let broken = if s.has_source(e, g) {
            apart.remove_source(e, g)
        } else {
            s
        };
        if s.has_source(e, g) {
            assert forall|i: int| 0 <= i < s.effects.len() implies #[trigger] same_slot(
                s.effects[i],
                warned.effects[i],
            ) by {}
            lemma_same_graph(s, warned);
            lemma_remove_subscriber(warned, g, e);
            links::law_unlink_source(apart.links(e), g);
            assert(apart.has_effect(e));
            if apart.wf() {
                assert(validity::effect_slot_wf(apart.effects[e.0 as int]));
            }
            if apart.wf() && apart.anchored() {
                assert forall|h: SignalId| #[trigger]
                    apart.subscribers(h).contains(e) implies model::reads(
                    model::unlink_source(apart.links(e), g),
                    h,
                ) by {
                    assert(apart.has_source(e, h));
                    assert(h != g);
                }
            }
            lemma_put_links(apart, e, model::unlink_source(apart.links(e), g));
        }
        links::law_link_output(broken.links(e), g, ui);
        if broken.has_effect(e) && broken.wf() {
            assert(validity::effect_slot_wf(broken.effects[e.0 as int]));
        }
        if broken.wf() && broken.anchored() {
            assert forall|h: SignalId| #[trigger]
                broken.subscribers(h).contains(e) implies model::reads(
                model::link_output(broken.links(e), g, ui),
                h,
            ) by {
                assert(broken.has_source(e, h));
            }
        }
        lemma_put_links(broken, e, model::link_output(broken.links(e), g, ui));
        lemma_add_writer(broken.add_output(e, g, ui), g, e);
    }
}

/// An emit keeps the runtime valid.
pub proof fn law_emit_keeps_validity(s: State, g: SignalId, from_ui: bool)
    ensures
        keeps(s, s.emit(g, from_ui)),
{
    let ui = s.counts_as_ui(from_ui);
    let r = s.register_writer(g, ui);
    let n = r.notify_subscribers(g, ui);
    let t = s.emit(g, from_ui);
    lemma_register_writer(s, g, ui);
    if s.wf() {
        push::lemma_notify_list(r, r.subscribers(g), ui);
        assert forall|i: int| 0 <= i < n.effects.len() implies #[trigger] same_slot(
            n.effects[i],
            t.effects[i],
        ) by {}
        lemma_same_graph(n, t);
    }
}

/// A read by a live effect keeps the runtime valid. (A read by an effect that has been
/// destroyed while it runs leaves a subscriber that is not there.)
pub proof fn law_track_keeps_validity(s: State, g: SignalId, e: Option<EffectId>)
    ensures
        s.wf() ==> s.track(g, e).wf(),
        s.wf() && s.anchored() && (e is Some ==> s.has_effect(e->0)) ==> s.track(g, e).anchored(),
{
    if let Some(x) = e {
        let read = s.add_source(x, g);
        let t = s.track(g, e);
        links::law_link_source(s.links(x), g);
        if s.wf() && s.has_effect(x) {
            assert(validity::effect_slot_wf(s.effects[x.0 as int]));
        }
        if s.wf() && s.anchored() {
            assert forall|h: SignalId| #[trigger] s.subscribers(h).contains(x) implies model::reads(
                model::link_source(s.links(x), g),
                h,
            ) by {
                assert(s.has_source(x, h));
            }
        }
        lemma_put_links(s, x, model::link_source(s.links(x), g));
        facts::lemma_insert_once(read.subscribers(g), x);
        if s.wf() {
            assert forall|i: int| 0 <= i < t.signals.len() implies validity::signal_slot_wf(
                #[trigger] t.signals[i],
            ) by {
                assert(validity::signal_slot_wf(read.signals[i]));
            }
        }
        if s.wf() && s.anchored() && s.has_effect(x) {
            assert forall|h: SignalId, y: EffectId| #[trigger]
                t.subscribers(h).contains(y) implies t.has_source(y, h) by {
                if h == g && y == x {
                    assert(t.has_effect(x));
                    assert(t.effect(x).signals == model::link_source(s.links(x), g));
                } else {
                    assert(read.subscribers(h).contains(y));
                    assert(read.has_source(y, h));
                }
            }
        }
    }
}

/// A new runtime is valid.
pub proof fn law_fresh_is_valid()
    ensures
        State::fresh().wf(),
        State::fresh().anchored(),
{
    assert forall|g: SignalId, e: EffectId| !#[trigger] State::fresh().subscribers(g).contains(
        e,
    ) by {}
}

/// A new effect keeps the runtime valid.
pub proof fn law_create_keeps_validity(s: State, key: nat, e: EffectId, m: EffectModel)
    requires
        s.vacant_effect(key),
        validity::distinct_links(m.signals),
    ensures
        keeps(s, s.create(key, e, m)),
{
    let t = s.create(key, e, m);
    if s.wf() {
        assert forall|i: int| 0 <= i < t.effects.len() implies validity::effect_slot_wf(
            #[trigger] t.effects[i],
        ) by {
            if i < s.effects.len() {
                assert(validity::effect_slot_wf(s.effects[i]));
            }
        }
    }
    if s.anchored() {
        assert forall|g: SignalId, x: EffectId| #[trigger]
            t.subscribers(g).contains(x) implies t.has_source(x, g) by {
            assert(s.subscribers(g).contains(x));
            assert(s.has_source(x, g));
            assert(x.0 != key);
            assert(t.effects[x.0 as int] == s.effects[x.0 as int]);
        }
    }
}

/// A new signal keeps the runtime valid.
pub proof fn law_insert_signal_keeps_validity(s: State, key: nat)
    requires
        s.vacant_signal(key),
    ensures
        keeps(s, s.insert_signal(key, Seq::empty())),
{
    let t = s.insert_signal(key, Seq::empty());
    if s.wf() {
        assert forall|i: int| 0 <= i < t.signals.len() implies validity::signal_slot_wf(
            #[trigger] t.signals[i],
        ) by {
            if i < s.signals.len() {
                assert(validity::signal_slot_wf(s.signals[i]));
            }
        }
    }
    if s.anchored() {
        assert forall|g: SignalId, x: EffectId| #[trigger]
            t.subscribers(g).contains(x) implies t.has_source(x, g) by {
            if g.0 != key {
                assert(t.subscribers(g) == s.subscribers(g));
            }
            assert(s.subscribers(g).contains(x));
            assert(s.has_source(x, g));
        }
    }
}

/// A new computed value keeps the runtime valid.
pub proof fn law_create_computed_keeps_validity(
    s: State,
    signal_key: nat,
    effect_key: nat,
    g: SignalId,
    e: EffectId,
    m: EffectModel,
    lazy: bool,
)
    requires
        s.vacant_signal(signal_key),
        s.vacant_effect(effect_key),
    ensures
        keeps(s, s.create_computed(signal_key, effect_key, g, e, m, lazy)),
{
    let with_signal = s.insert_signal(signal_key, Seq::empty());
    let owner = EffectModel { signals: seq![model::own_link(g)], ..m };
    let node = if lazy {
        EffectModel { state: ReactiveState::Dirty, ..owner }
    } else {
        owner
    };
    let made = with_signal.create(effect_key, e, node);
    law_insert_signal_keeps_validity(s, signal_key);
    law_create_keeps_validity(with_signal, effect_key, e, node);
    lemma_add_writer(made, g, e);
    lemma_local_keeps(
        made.add_writer(g, e),
        s.create_computed(signal_key, effect_key, g, e, m, lazy),
    );
}

/// A signal that is given up leaves the runtime valid, and nobody subscribed to it
/// reads it any more.
#[verifier::spinoff_prover]
pub proof fn law_dispose_signal(s: State, g: SignalId)
    ensures
        keeps(s, s.dispose_signal(g)),
        !s.dispose_signal(g).has_signal(g),
        forall|e: EffectId| #[trigger]
            s.subscribers(g).contains(e) ==> !s.dispose_signal(g).has_source(e, g),
        forall|h: SignalId| h != g ==> #[trigger] s.dispose_signal(g).subscribers(h)
            == s.subscribers(h),
        forall|h: SignalId, e: EffectId|
            h != g ==> #[trigger] s.dispose_signal(g).has_source(e, h) == s.has_source(e, h),
        forall|e: EffectId| #[trigger] s.dispose_signal(g).state_of(e) == s.state_of(e),
        s.dispose_signal(g).pending == s.pending,
{
    let subs = s.subscribers(g);
    let t = s.dispose_signal(g);
    assert forall|i: int| 0 <= i < s.effects.len() implies #[trigger] t.effects[i] == (
    match s.effects[i] {
        Some(m) if graph::effect_hit(subs, s.effect_gens, i) => Some(
            EffectModel { signals: model::unlink_source(m.signals, g), ..m },
        ),
        other => other,
    }) by {}
    assert forall|e: EffectId| #[trigger] subs.contains(e) implies !t.has_source(e, g) by {
        if t.has_effect(e) {
            assert(t.effects[e.0 as int] is Some);
            facts::lemma_effect_hit(subs, s.effect_gens, e);
            links::law_unlink_source(s.effect(e).signals, g);
        }
    }
    assert forall|h: SignalId, e: EffectId| h != g implies #[trigger] t.has_source(e, h)
        == s.has_source(e, h) by {
        if e.0 < s.effects.len() {
            assert(t.effects[e.0 as int] is Some <==> s.effects[e.0 as int] is Some);
            if s.has_effect(e) {
                links::law_unlink_source(s.effect(e).signals, g);
            }
        }
    }
    assert forall|e: EffectId| #[trigger] t.state_of(e) == s.state_of(e) by {
        if e.0 < s.effects.len() {
            assert(t.effects[e.0 as int] is Some <==> s.effects[e.0 as int] is Some);
        }
    }
    assert forall|h: SignalId| h != g implies #[trigger] t.subscribers(h) == s.subscribers(h) by {}
    if s.wf() {
        assert forall|i: int| 0 <= i < t.effects.len() implies validity::effect_slot_wf(
            #[trigger] t.effects[i],
        ) by {
            assert(validity::effect_slot_wf(s.effects[i]));
            if s.effects[i] is Some {
                links::law_unlink_source(s.effects[i]->0.signals, g);
            }
        }
        assert forall|i: int| 0 <= i < t.signals.len() implies validity::signal_slot_wf(
            #[trigger] t.signals[i],
        ) by {
            assert(validity::signal_slot_wf(s.signals[i]));
        }
    }
    if s.anchored() {
        assert forall|h: SignalId, x: EffectId| #[trigger]
            t.subscribers(h).contains(x) implies t.has_source(x, h) by {
            assert(h != g);
            assert(s.subscribers(h).contains(x));
            assert(s.has_source(x, h));
        }
    }
}

/// An effect that is given up leaves the runtime valid. It is not pending, and no
/// signal notifies it any more. Unless its parent holds it, it is gone, and so is
/// every effect that descends from it.
#[verifier::spinoff_prover]
pub proof fn law_dispose_effect(s: State, e: EffectId)
    requires
        s.wf(),
    ensures
        s.dispose_effect(e).wf(),
        s.anchored() ==> s.dispose_effect(e).anchored(),
        !s.dispose_effect(e).pending.contains(e),
        s.anchored() ==> forall|g: SignalId|
            !#[trigger] s.dispose_effect(e).subscribers(g).contains(e),
        !s.parents.contains_key(e) ==> !s.dispose_effect(e).has_effect(e),
        !s.parents.contains_key(e) && s.has_effect(e) ==> forall|d: EffectId|
            tree::descends(s.children, e, d) ==> !#[trigger] s.dispose_effect(e).has_effect(d),
        s.parents.contains_key(e) && s.has_effect(e) ==> s.dispose_effect(e).effect(e) == s.effect(
            e,
        ),
{
    let idle = s.pending_remove(e);
    let t = s.dispose_effect(e);
    facts::lemma_swap_removed(s.pending, e);
    assert(idle.wf());
    assert forall|g: SignalId| #[trigger] idle.subscribers(g) == s.subscribers(g) by {}
    if s.anchored() {
        assert forall|g: SignalId, x: EffectId| #[trigger]
            idle.subscribers(g).contains(x) implies idle.has_source(x, g) by {
            assert(s.subscribers(g).contains(x));
            assert(s.has_source(x, g));
        }
        assert(idle.anchored());
        if !s.has_effect(e) {
            assert forall|g: SignalId| !#[trigger] idle.subscribers(g).contains(e) by {
                if idle.subscribers(g).contains(e) {
                    assert(s.has_source(e, g));
                }
            }
        }
    }
    if s.has_effect(e) {
        let off = idle.unsubscribe(e);
        let apart = off.unregister(e);
        lemma_unsubscribe_all(idle, e);
        lemma_unregister(off, off.outputs(e), e);
        assert forall|g: SignalId| #[trigger] apart.subscribers(g) == off.subscribers(g) by {}
        assert(apart.pending == idle.pending);
        assert(apart.effects == s.effects);
        if !s.parents.contains_key(e) {
            let cut = apart.destroy_children(e);
            tree::law_destroy_children(apart, e);
            assert(!cut.pending.contains(e));
            assert forall|i: int| 0 <= i < t.effects.len() implies validity::effect_slot_wf(
                #[trigger] t.effects[i],
            ) by {
                assert(validity::effect_slot_wf(cut.effects[i]));
            }
            assert forall|g: SignalId| #[trigger] t.subscribers(g) == cut.subscribers(g) by {}
            if s.anchored() {
                assert forall|g: SignalId, x: EffectId| #[trigger]
                    t.subscribers(g).contains(x) implies t.has_source(x, g) && x != e by {
                    assert(cut.subscribers(g).contains(x));
                    assert(apart.subscribers(g).contains(x));
                    assert(off.subscribers(g).contains(x));
                    assert(x != e);
                    assert(cut.has_source(x, g));
                }
            }
            assert forall|d: EffectId| tree::descends(
                s.children,
                e,
                d,
            ) implies !#[trigger] t.has_effect(d) by {
                assert(!cut.has_effect(d));
            }
        }
    }
}

// ---------------------------------------------------------------------------
// Runs and steps
// ---------------------------------------------------------------------------

/// An effect forgets its last run, and no signal says otherwise.
proof fn lemma_forget_run(s: State, e: EffectId)
    ensures
        keeps(s, s.forget_run(e)),
{
    let off = s.unsubscribe(e);
    let written = model::written_of(s.links(e));
    let apart = State { writers: graph::unwritten(s.writers, written, e), ..off };
    lemma_unsubscribe_all(s, e);
    lemma_unregister(off, written, e);
    assert forall|g: SignalId| #[trigger] apart.subscribers(g) == off.subscribers(g) by {}
    links::law_own_links(s.links(e));
    assert(apart.links(e) == s.links(e));
    if s.wf() && s.has_effect(e) {
        assert(validity::effect_slot_wf(s.effects[e.0 as int]));
    }
    if s.wf() && s.anchored() {
        assert forall|g: SignalId| !#[trigger] apart.subscribers(g).contains(e) by {
            assert(!off.subscribers(g).contains(e));
        }
        lemma_put_links(apart, e, model::own_links(s.links(e)));
    } else if s.wf() {
        let t = s.forget_run(e);
        assert forall|i: int| 0 <= i < t.effects.len() implies validity::effect_slot_wf(
            #[trigger] t.effects[i],
        ) by {
            assert(validity::effect_slot_wf(apart.effects[i]));
        }
    }
}

/// As `lemma_forget_run`, for what was read alone.
proof fn lemma_clear_reads(s: State, e: EffectId)
    ensures
        keeps(s, s.unsubscribe(e).clear_sources(e)),
{
    let off = s.unsubscribe(e);
    lemma_unsubscribe_all(s, e);
    links::law_unlink_sources(off.links(e));
    if s.wf() && off.has_effect(e) {
        assert(validity::effect_slot_wf(off.effects[e.0 as int]));
    }
    if s.wf() && s.anchored() {
        assert forall|g: SignalId| !#[trigger] off.subscribers(g).contains(e) by {}
        lemma_put_links(off, e, model::unlink_sources(off.links(e)));
    } else if s.wf() {
        let t = off.clear_sources(e);
        assert forall|i: int| 0 <= i < t.effects.len() implies validity::effect_slot_wf(
            #[trigger] t.effects[i],
        ) by {
            assert(validity::effect_slot_wf(off.effects[i]));
        }
    }
}

/// States and callbacks are no part of validity.
proof fn lemma_set_state_keeps(s: State, e: EffectId, to: ReactiveState)
    ensures
        keeps(s, s.set_state(e, to)),
{
    let t = s.set_state(e, to);
    assert forall|i: int| 0 <= i < s.effects.len() implies #[trigger] same_slot(
        s.effects[i],
        t.effects[i],
    ) by {}
    lemma_same_graph(s, t);
}

/// As `lemma_set_state_keeps`, for callbacks.
pub proof fn lemma_put_callback_keeps(s: State, e: EffectId, callback: Option<EffectFn>)
    ensures
        keeps(s, s.put_callback(e, callback)),
{
    let t = s.put_callback(e, callback);
    assert forall|i: int| 0 <= i < s.effects.len() implies #[trigger] same_slot(
        s.effects[i],
        t.effects[i],
    ) by {}
    lemma_same_graph(s, t);
}

/// What a thread has of its own, and whether the loop is notified, is no part of
/// validity.
pub proof fn lemma_local_keeps(s: State, t: State)
    requires
        t.signals == s.signals,
        t.effects == s.effects,
        t.pending == s.pending,
        t.writers == s.writers,
        t.signal_gens == s.signal_gens,
        t.effect_gens == s.effect_gens,
    ensures
        keeps(s, t),
{
    assert forall|i: int| 0 <= i < s.effects.len() implies #[trigger] same_slot(
        s.effects[i],
        t.effects[i],
    ) by {}
    lemma_same_graph(s, t);
}

/// What precedes a callback.
proof fn lemma_prepare_run(s: State, e: EffectId, kind: RunKind)
    ensures
        keeps(s, s.prepare_run(e, kind)),
{
    match kind {
        RunKind::Bare => {},
        RunKind::Initial => {
            lemma_local_keeps(s, s.prepare_run(e, kind));
        },
        RunKind::Now => {
            lemma_clear_reads(s, e);
            lemma_local_keeps(s.unsubscribe(e).clear_sources(e), s.prepare_run(e, kind));
        },
        RunKind::Single | RunKind::SingleThenMark => {
            let clean = s.set_state(e, ReactiveState::Clean);
            lemma_set_state_keeps(s, e, ReactiveState::Clean);
            if s.wanted(e, kind) {
                lemma_forget_run(clean, e);
                lemma_local_keeps(clean.forget_run(e), s.prepare_run(e, kind));
            }
        },
    }
}

/// What follows a callback.
proof fn lemma_conclude_run(s: State, e: EffectId, kind: RunKind)
    ensures
        keeps(s, s.conclude_run(e, kind)),
{
    match kind {
        RunKind::Bare | RunKind::Initial | RunKind::Single => {},
        RunKind::Now => {
            lemma_set_state_keeps(s, e, ReactiveState::Clean);
        },
        RunKind::SingleThenMark => {
            let marked = s.mark_outputs(e);
            if s.wf() {
                push::lemma_notify_list(s, s.told_after(e), false);
            }
            lemma_local_keeps(marked, s.conclude_run(e, kind));
        },
    }
}

/// The beginning of a run.
pub proof fn lemma_begin_run(s: State, e: EffectId, kind: RunKind)
    ensures
        keeps(s, s.begin_run(e, kind).0),
{
    let ready = s.prepare_run(e, kind);
    lemma_prepare_run(s, e, kind);
    if s.calls(e, kind) {
        lemma_put_callback_keeps(ready, e, None);
        lemma_local_keeps(ready.put_callback(e, None), s.begin_run(e, kind).0);
    } else {
        let back = ready.with_current(s.local.current);
        lemma_local_keeps(ready, back);
        match kind {
            RunKind::Now => {
                lemma_set_state_keeps(back, e, ReactiveState::Clean);
            },
            RunKind::SingleThenMark => {
                lemma_local_keeps(back, back.skip_run(e, kind));
            },
            _ => {},
        }
    }
}

/// A callback that fails leaves the runtime valid.
pub proof fn law_abort_callback_keeps_validity(s: State, callback: EffectFn)
    ensures
        keeps(s, s.abort_callback(callback)),
{
    if s.local.frames.len() > 0 {
        if let FrameModel::Running { effect, previous, kind } = s.local.frames.last() {
            let popped = s.pop_frame();
            let put = popped.put_callback(effect, Some(callback));
            lemma_local_keeps(s, popped);
            lemma_put_callback_keeps(popped, effect, Some(callback));
            lemma_local_keeps(put, put.with_current(previous));
        }
    }
}

/// A callback that returns leaves the runtime valid.
pub proof fn law_finish_callback_keeps_validity(s: State, callback: EffectFn)
    ensures
        keeps(s, s.finish_callback(callback)),
{
    if s.local.frames.len() > 0 {
        if let FrameModel::Running { effect, previous, kind } = s.local.frames.last() {
            let popped = s.pop_frame();
            let put = popped.put_callback(effect, Some(callback));
            lemma_local_keeps(s, popped);
            lemma_put_callback_keeps(popped, effect, Some(callback));
            lemma_local_keeps(put, put.with_current(previous));
            lemma_conclude_run(put.with_current(previous), effect, kind);
        }
    }
}

/// The next step subscribes an effect that is not in the arena any more.
pub open spec fn tracks_a_stale_effect(s: State) -> bool {
    s.local.frames.len() > 0 && match s.local.frames.last() {
        FrameModel::Track { effect: Some(e), .. } => !s.has_effect(e),
        _ => false,
    }
}

/// A step leaves the runtime valid. (One that subscribes an effect that has been
/// destroyed while it runs leaves a subscriber that is not there.)
#[verifier::spinoff_prover]
pub proof fn law_step_keeps_validity(s: State)
    ensures
        s.wf() ==> s.step().0.wf(),
        s.wf() && s.anchored() && !tracks_a_stale_effect(s) ==> s.step().0.anchored(),
{
    if s.local.frames.len() > 0 {
        let p = s.pop_frame();
        let t = s.step().0;
        lemma_local_keeps(s, p);
        match s.local.frames.last() {
            FrameModel::Update { effect, skip } => {
                if p.state_of(effect) is Dirty {
                    lemma_begin_run(p, effect, RunKind::SingleThenMark);
                } else {
                    lemma_local_keeps(p, t);
                }
            },
            FrameModel::Start { effect, kind } => {
                lemma_begin_run(p, effect, kind);
            },
            FrameModel::Running { .. } => {},
            FrameModel::Verify { effect, sources, next, skip } => {
                if next < sources.len() && p.state_of(effect) !is Dirty {
                    lemma_local_keeps(p, t);
                } else if p.state_of(effect) is Check {
                    lemma_set_state_keeps(p, effect, ReactiveState::Clean);
                    lemma_local_keeps(p.set_state(effect, ReactiveState::Clean), t);
                } else {
                    lemma_begin_run(p, effect, RunKind::SingleThenMark);
                }
            },
            FrameModel::Pull { .. } => {
                lemma_local_keeps(p, t);
            },
            FrameModel::Track { signal, effect } => {
                law_track_keeps_validity(p, signal, effect);
            },
            FrameModel::Flush { ids, next, total } => {
                if next < ids.len() || p.pending.len() == 0 {
                    lemma_local_keeps(p, t);
                } else {
                    let empty = p.pending_clear();
                    lemma_pending_clear(p);
                    lemma_local_keeps(empty, t);
                }
            },
            FrameModel::Budget { .. } => {
                lemma_local_keeps(p, t);
            },
            FrameModel::Schedule => {
                lemma_local_keeps(p, t);
            },
        }
    }
}

/// An empty pending set.
proof fn lemma_pending_clear(s: State)
    ensures
        keeps(s, s.pending_clear()),
{
    if s.anchored() {
        assert forall|g: SignalId, e: EffectId| #[trigger]
            s.pending_clear().subscribers(g).contains(e) implies s.pending_clear().has_source(
            e,
            g,
        ) by {
            assert(s.subscribers(g).contains(e));
            assert(s.has_source(e, g));
        }
    }
}

/// The clock leaves the runtime valid.
pub proof fn law_clock_keeps_validity(s: State, elapsed: u128)
    ensures
        keeps(s, s.clock(elapsed)),
{
    lemma_local_keeps(s, s.clock(elapsed));
}

/// The beginning of a flush with a budget leaves the runtime valid.
pub proof fn law_flush_with_budget_keeps_validity(
    s: State,
    limit: u128,
    must_run: Seq<EffectId>,
    skippable: Seq<EffectId>,
)
    ensures
        keeps(s, s.flush_with_budget(limit, must_run, skippable)),
{
    let quiet = s.with_scheduled(false);
    lemma_local_keeps(s, quiet);
    lemma_pending_clear(quiet);
    lemma_local_keeps(quiet.pending_clear(), s.flush_with_budget(limit, must_run, skippable));
}

/// Entering and leaving a transaction leaves the runtime valid.
pub proof fn law_transaction_keeps_validity(s: State, suppress: bool)
    ensures
        keeps(s, s.enter(suppress)),
        keeps(s, s.exit(suppress)),
{
    lemma_local_keeps(s, s.enter(suppress));
    lemma_local_keeps(s, s.exit(suppress));
}

/// Marking and destroying leave the runtime valid.
pub proof fn law_marking_keeps_validity(
    s: State,
    e: EffectId,
    g: SignalId,
    list: Seq<EffectId>,
    from_ui: bool,
)
    ensures
        keeps(s, s.destroy_children(e)),
        keeps(s, s.mark_pending(e)),
        keeps(s, s.mark_dirty(e)),
        keeps(s, s.check_list(list)),
        keeps(s, s.notify_subscribers(g, from_ui)),
{
    if s.wf() {
        tree::law_destroy_children(s, e);
        push::lemma_mark_pending_pushed(s, e);
        push::lemma_check_list_pushed(s, list);
        push::lemma_notify_list(s, s.subscribers(g), from_ui);
        lemma_set_state_keeps(s, e, ReactiveState::Dirty);
        if s.state_of(e) !is Dirty {
            let dirty = s.set_state(e, ReactiveState::Dirty);
            let cut = dirty.destroy_children(e);
            tree::law_destroy_children(dirty, e);
            lemma_pending_insert(cut, e);
        }
    }
}

/// One pending effect more.
proof fn lemma_pending_insert(s: State, e: EffectId)
    ensures
        keeps(s, s.pending_insert(e)),
{
    facts::lemma_insert_once(s.pending, e);
    if s.anchored() {
        let t = s.pending_insert(e);
        assert forall|g: SignalId, x: EffectId| #[trigger]
            t.subscribers(g).contains(x) implies t.has_source(x, g) by {
            assert(s.subscribers(g).contains(x));
            assert(s.has_source(x, g));
        }
    }
}

} // verus!
