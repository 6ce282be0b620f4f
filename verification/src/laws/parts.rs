//! The parts of the runtime: what one read of a part says, and what one write to it changes
//! and leaves.
use vstd::prelude::*;

use crate::arena::effect_arena::EffectFn;
use crate::arena::effect_arena::EffectId;
use crate::arena::effect_arena::ReactiveState;
use crate::arena::signal_arena::SignalId;
use crate::laws::links;
use crate::laws::tree;
use crate::lists;
use crate::model;
use crate::model::facts;
use crate::model::graph;
use crate::model::EffectModel;
use crate::model::FrameModel;
use crate::model::LocalModel;
use crate::model::RunKind;
use crate::model::State;

verus! {

// ---------------------------------------------------------------------------
// Sequences used as sets
// ---------------------------------------------------------------------------

/// Whoever is inserted comes last, unless it is there already; the others keep their places.
pub proof fn law_insert_once<A>(s: Seq<A>, x: A)
    ensures
        s.is_prefix_of(model::insert_once(s, x)),
        model::insert_once(s, x).contains(x),
        s.contains(x) ==> model::insert_once(s, x).len() == s.len(),
        !s.contains(x) ==> model::insert_once(s, x).len() == s.len() + 1 && model::insert_once(
            s,
            x,
        ).last() == x,
{
    let t = model::insert_once(s, x);
    assert(s =~= t.subrange(0, s.len() as int));
    if !s.contains(x) {
        assert(t[s.len() as int] == x);
    }
}

/// Whoever is taken out leaves its place to the last one; the others keep theirs.
pub proof fn law_swap_removed<A>(s: Seq<A>, k: int)
    requires
        s.no_duplicates(),
        0 <= k < s.len(),
    ensures
        ({
            let t = model::swap_removed(s, s[k]);
            &&& t.len() == s.len() - 1
            &&& k < t.len() ==> t[k] == s.last()
            &&& forall|i: int| 0 <= i < t.len() && i != k ==> #[trigger] t[i] == s[i]
        }),
{
    facts::lemma_first_index(s, s[k]);
    assert(s.contains(s[k]));
    assert(model::first_index(s, s[k]) == k);
}

/// Nothing happens if somebody is taken out who is not there.
pub proof fn law_swap_removed_absent<A>(s: Seq<A>, x: A)
    requires
        !s.contains(x),
    ensures
        model::swap_removed(s, x) == s,
{
}

/// What is left without `x` is, part by part, what is left of the parts: all but `x`, in the
/// same order.
pub proof fn law_without<A>(a: Seq<A>, b: Seq<A>, x: A, y: A)
    ensures
        model::without(a + b, x) == model::without(a, x) + model::without(b, x),
        model::without(Seq::<A>::empty(), x) == Seq::<A>::empty(),
        y != x ==> model::without(seq![y], x) == seq![y],
        model::without(seq![x], x) == Seq::<A>::empty(),
{
    Seq::filter_distributes_over_add(a, b, model::other_than(x));
    reveal_with_fuel(Seq::filter, 2);
    assert(seq![y].drop_last() =~= Seq::<A>::empty());
    assert(seq![x].drop_last() =~= Seq::<A>::empty());
    assert(model::without(seq![x], x) =~= Seq::<A>::empty());
    if y != x {
        assert(model::without(seq![y], x) =~= seq![y]);
    }
}

// ---------------------------------------------------------------------------
// What a read says
// ---------------------------------------------------------------------------

/// An identifier is live if its slot is occupied and has had as many occupants before as the
/// identifier says. So of all identifiers of an occupied slot one is live, and of a vacant
/// slot none.
pub proof fn law_one_identifier_for_a_slot(s: State, slot: u32, x: EffectId, g: SignalId)
    ensures
        slot < s.effects.len() ==> (s.has_effect(s.effect_at(slot)) <==> s.effects[slot as int]
            is Some),
        slot < s.signals.len() ==> (s.has_signal(s.signal_at(slot)) <==> s.signals[slot as int]
            is Some),
        s.effect_at(slot).0 == slot,
        s.signal_at(slot).0 == slot,
        s.has_effect(x) ==> x == s.effect_at(x.0),
        s.has_signal(g) ==> g == s.signal_at(g.0),
        slot >= s.effects.len() ==> !s.has_effect(s.effect_at(slot)),
        slot >= s.signals.len() ==> !s.has_signal(s.signal_at(slot)),
{
}

/// What is said of an effect is what its slot holds; of a stale one it is said that it is
/// Clean, has no callback and no properties, and reads and writes nothing.
pub proof fn law_effect_is_what_its_slot_holds(s: State, e: EffectId, g: SignalId)
    ensures
        s.has_effect(e) ==> {
            let m = s.effects[e.0 as int]->0;
            &&& s.state_of(e) == m.state
            &&& s.is_skippable(e) <==> m.skippable
            &&& s.is_ui_only(e) <==> m.ui_only
            &&& s.has_callback(e) <==> m.callback is Some
            &&& s.links(e) == m.signals
            &&& s.has_source(e, g) <==> exists|i: int|
                0 <= i < m.signals.len() && (#[trigger] m.signals[i]).0 == g
                    && m.signals[i].1.is_source
        },
        !s.has_effect(e) ==> {
            &&& s.state_of(e) is Clean
            &&& !s.is_skippable(e)
            &&& !s.is_ui_only(e)
            &&& !s.has_callback(e)
            &&& !s.has_source(e, g)
            &&& s.links(e).len() == 0
            &&& s.sources(e).len() == 0
            &&& s.outputs(e).len() == 0
        },
{
    lists::lemma_no_links();
    if !s.has_effect(e) {
        assert(s.links(e) =~= Seq::empty());
    }
}

/// The subscribers of a signal are those of its slot; a stale signal has none. The writers of
/// a signal and the children of an effect are those that are registered.
pub proof fn law_lists_are_what_is_stored(s: State, g: SignalId, e: EffectId)
    ensures
        s.has_signal(g) ==> s.subscribers(g) == s.signals[g.0 as int]->0,
        !s.has_signal(g) ==> s.subscribers(g).len() == 0,
        s.writers.contains_key(g) ==> s.writers_of(g) == s.writers[g],
        !s.writers.contains_key(g) ==> s.writers_of(g).len() == 0,
        s.children.contains_key(e) ==> s.children_of(e) == s.children[e],
        !s.children.contains_key(e) ==> s.children_of(e).len() == 0,
{
}

/// In a new runtime there is nothing, nothing is pending, and nothing is under way: no effect
/// is current, no transaction is open, no loop is attached, and there are no results yet.
pub proof fn law_new_runtime(e: EffectId, g: SignalId)
    ensures
        ({
            let s = State::fresh();
            &&& !s.has_effect(e)
            &&& !s.has_signal(g)
            &&& s.effect_at(e.0) == EffectId(e.0, 0)
            &&& s.signal_at(g.0) == SignalId(g.0, 0)
            &&& s.pending.len() == 0
            &&& !s.parents.contains_key(e)
            &&& s.children_of(e).len() == 0
            &&& s.writers_of(g).len() == 0
            &&& s.active == 0
            &&& !s.attached
            &&& !s.notice
            &&& s.local.current is None
            &&& !s.local.scheduled
            &&& s.local.depth == 0
            &&& !s.local.suppress
            &&& s.local.frames.len() == 0
            &&& s.local.processed == 0
            &&& !s.local.updated
            &&& s.local.budget is None
            &&& s.local.warning is None
        }),
{
}

/// The states have an order: Clean, Check, Dirty.
pub proof fn law_states_are_ordered()
    ensures
        graph::rank(ReactiveState::Clean) < graph::rank(ReactiveState::Check),
        graph::rank(ReactiveState::Check) < graph::rank(ReactiveState::Dirty),
{
}

// ---------------------------------------------------------------------------
// One effect
// ---------------------------------------------------------------------------

/// `t` is `s` but for what the arena holds of `e`.
pub open spec fn only_effect(s: State, t: State, e: EffectId) -> bool {
    &&& t == (State { effects: t.effects, ..s })
    &&& t.effects.len() == s.effects.len()
    &&& forall|i: int|
        0 <= i < s.effects.len() && i != e.0 ==> #[trigger] t.effects[i] == s.effects[i]
    &&& t.has_effect(e) <==> s.has_effect(e)
    &&& !s.has_effect(e) ==> t == s
}

/// To set the state of an effect sets its state, and nothing else.
pub proof fn law_set_state(s: State, e: EffectId, to: ReactiveState)
    ensures
        only_effect(s, s.set_state(e, to), e),
        s.has_effect(e) ==> s.set_state(e, to).effect(e) == (EffectModel {
            state: to,
            ..s.effect(e)
        }),
{
}

/// To upgrade the state of an effect sets it if that is a step up, from Clean to Check to
/// Dirty, and says whether it was.
pub proof fn law_upgrade_state(s: State, e: EffectId, to: ReactiveState)
    ensures
        only_effect(s, s.upgrade_state(e, to), e),
        s.has_effect(e) ==> {
            let up = match (s.state_of(e), to) {
                (ReactiveState::Clean, ReactiveState::Check) => true,
                (ReactiveState::Clean, ReactiveState::Dirty) => true,
                (ReactiveState::Check, ReactiveState::Dirty) => true,
                _ => false,
            };
            &&& s.upgrades(e, to) <==> up
            &&& s.upgrade_state(e, to).effect(e) == (EffectModel {
                state: if up {
                    to
                } else {
                    s.state_of(e)
                },
                ..s.effect(e)
            })
        },
        !s.has_effect(e) ==> !s.upgrades(e, to),
{
}

/// To put a callback into the arena, or to take it out, changes nothing else.
pub proof fn law_put_callback(s: State, e: EffectId, f: Option<EffectFn>)
    ensures
        only_effect(s, s.put_callback(e, f), e),
        s.has_effect(e) ==> s.put_callback(e, f).effect(e) == (EffectModel {
            callback: f,
            ..s.effect(e)
        }),
{
}

/// To put other metadata or other links into the slot of an effect changes no other slot.
pub proof fn law_put_effect(s: State, e: EffectId, m: EffectModel, l: Seq<model::Link>)
    ensures
        s.has_effect(e) ==> only_effect(s, s.put_effect(e, m), e) && s.put_effect(e, m).effect(e)
            == m,
        only_effect(s, s.put_links(e, l), e),
        s.has_effect(e) ==> s.put_links(e, l).effect(e) == (EffectModel {
            signals: l,
            ..s.effect(e)
        }),
{
}

/// What is noted of the signals of an effect changes nothing but that: which signals it
/// reads, or which it writes.
pub proof fn law_noting_a_signal(s: State, e: EffectId, g: SignalId, from_ui: bool)
    ensures
        ({
            let read = s.add_source(e, g);
            let unread = s.remove_source(e, g);
            let blank = s.clear_sources(e);
            let written = s.add_output(e, g, from_ui);
            &&& only_effect(s, read, e)
            &&& only_effect(s, unread, e)
            &&& only_effect(s, blank, e)
            &&& only_effect(s, written, e)
            &&& s.has_effect(e) ==> {
                &&& read.effect(e) == (EffectModel { signals: read.links(e), ..s.effect(e) })
                &&& unread.effect(e) == (EffectModel { signals: unread.links(e), ..s.effect(e) })
                &&& blank.effect(e) == (EffectModel { signals: blank.links(e), ..s.effect(e) })
                &&& written.effect(e) == (EffectModel { signals: written.links(e), ..s.effect(e) })
                &&& forall|h: SignalId| #[trigger]
                    read.has_source(e, h) <==> s.has_source(e, h) || h == g
                &&& forall|h: SignalId| #[trigger]
                    unread.has_source(e, h) <==> s.has_source(e, h) && h != g
                &&& forall|h: SignalId| !#[trigger] blank.has_source(e, h)
                &&& forall|h: SignalId| #[trigger]
                    written.has_source(e, h) <==> s.has_source(e, h)
                &&& forall|h: SignalId| #[trigger]
                    links::writes(read.links(e), h) <==> links::writes(s.links(e), h)
                &&& forall|h: SignalId| #[trigger]
                    links::writes(unread.links(e), h) <==> links::writes(s.links(e), h)
                &&& forall|h: SignalId| #[trigger]
                    links::writes(blank.links(e), h) <==> links::writes(s.links(e), h)
                &&& forall|h: SignalId| #[trigger]
                    links::writes(written.links(e), h) <==> links::writes(s.links(e), h) || h == g
            }
        }),
{
    links::law_link_source(s.links(e), g);
    links::law_unlink_source(s.links(e), g);
    links::law_unlink_sources(s.links(e));
    links::law_link_output(s.links(e), g, from_ui);
}

/// A new effect takes its slot and touches no other.
pub proof fn law_insert_effect(s: State, key: usize, m: EffectModel)
    requires
        s.vacant_effect(key as nat),
        key <= u32::MAX,
    ensures
        ({
            let t = s.insert_effect(key as nat, m);
            let e = s.effect_at(key as u32);
            &&& t == (State { effects: t.effects, ..s })
            &&& t.has_effect(e) && t.effect(e) == m && t.effect_at(key as u32) == e
            &&& forall|x: EffectId| x != e ==> (#[trigger] t.has_effect(x) <==> s.has_effect(x))
            &&& forall|x: EffectId| #[trigger] s.has_effect(x) ==> t.effect(x) == s.effect(x)
        }),
{
}

/// An effect that is removed is stale, and its slot vacant for one with another identifier;
/// it has neither parent nor children. Nobody else changes.
pub proof fn law_remove_effect_touches_nothing_else(s: State, e: EffectId)
    ensures
        ({
            let t = s.remove_effect(e);
            &&& t == (State {
                effects: t.effects,
                effect_gens: t.effect_gens,
                parents: t.parents,
                children: t.children,
                ..s
            })
            &&& !t.has_effect(e)
            &&& forall|x: EffectId| x != e ==> (#[trigger] t.has_effect(x) <==> s.has_effect(x))
            &&& forall|x: EffectId| #[trigger] t.has_effect(x) ==> t.effect(x) == s.effect(x)
            &&& s.has_effect(e) ==> t.effect_at(e.0) != e && t.effects[e.0 as int] is None
            &&& s.has_effect(e) && e.1 < u64::MAX ==> t.effect_at(e.0).1 == e.1 + 1
            &&& forall|slot: u32|
                slot != e.0 ==> #[trigger] t.effect_at(slot) == s.effect_at(slot)
            &&& forall|x: EffectId| #[trigger]
                t.parents.contains_key(x) <==> s.parents.contains_key(x) && x != e
            &&& forall|x: EffectId| #[trigger]
                t.parents.contains_key(x) ==> t.parents[x] == s.parents[x]
            &&& forall|x: EffectId| #[trigger]
                t.children_of(x) == if x == e {
                    Seq::empty()
                } else {
                    s.children_of(x)
                }
        }),
{
    let t = s.remove_effect(e);
    if s.has_effect(e) {
        assert(graph::gen_at(t.effect_gens, e.0 as int) == graph::next_gen(e.1));
        assert forall|slot: u32| slot != e.0 implies #[trigger] t.effect_at(slot) == s.effect_at(
            slot,
        ) by {}
    }
}

// ---------------------------------------------------------------------------
// One signal
// ---------------------------------------------------------------------------

/// A new signal has no subscribers and touches no other.
pub proof fn law_insert_signal(s: State, key: usize)
    requires
        s.vacant_signal(key as nat),
        key <= u32::MAX,
    ensures
        ({
            let t = s.insert_signal(key as nat, Seq::empty());
            let g = s.signal_at(key as u32);
            &&& t == (State { signals: t.signals, ..s })
            &&& !s.has_signal(g) && t.has_signal(g) && t.subscribers(g).len() == 0
            &&& t.signal_at(key as u32) == g
            &&& forall|h: SignalId| h != g ==> (#[trigger] t.has_signal(h) <==> s.has_signal(h))
            &&& forall|h: SignalId| #[trigger] t.subscribers(h) == s.subscribers(h)
        }),
{
    let t = s.insert_signal(key as nat, Seq::empty());
    assert forall|h: SignalId| #[trigger] t.subscribers(h) == s.subscribers(h) by {
        if h.0 == key {
            assert(t.subscribers(h) =~= s.subscribers(h));
        }
    }
}

/// A signal that is removed is stale, and its slot vacant for one with another identifier.
/// No other signal changes.
pub proof fn law_remove_signal(s: State, g: SignalId)
    ensures
        ({
            let t = s.remove_signal(g);
            &&& t == (State { signals: t.signals, signal_gens: t.signal_gens, ..s })
            &&& !t.has_signal(g)
            &&& !s.has_signal(g) ==> t == s
            &&& s.has_signal(g) ==> t.signal_at(g.0) != g && t.signals[g.0 as int] is None
            &&& s.has_signal(g) && g.1 < u64::MAX ==> t.signal_at(g.0).1 == g.1 + 1
            &&& forall|h: SignalId| h != g ==> (#[trigger] t.has_signal(h) <==> s.has_signal(h))
            &&& forall|h: SignalId| h != g ==> #[trigger] t.subscribers(h) == s.subscribers(h)
            &&& forall|slot: u32|
                slot != g.0 ==> #[trigger] t.signal_at(slot) == s.signal_at(slot)
        }),
{
    let t = s.remove_signal(g);
    if s.has_signal(g) {
        assert(graph::gen_at(t.signal_gens, g.0 as int) == graph::next_gen(g.1));
        assert forall|slot: u32| slot != g.0 implies #[trigger] t.signal_at(slot) == s.signal_at(
            slot,
        ) by {}
    }
}

/// A subscription is added or taken away, and no other changes. A new subscriber comes last.
pub proof fn law_subscriptions(s: State, g: SignalId, e: EffectId)
    ensures
        ({
            let t = s.add_subscriber(g, e);
            let u = s.remove_subscriber(g, e);
            &&& t == (State { signals: t.signals, ..s })
            &&& u == (State { signals: u.signals, ..s })
            &&& !s.has_signal(g) ==> t == s && u == s
            &&& forall|h: SignalId| #[trigger] t.has_signal(h) <==> s.has_signal(h)
            &&& forall|h: SignalId| #[trigger] u.has_signal(h) <==> s.has_signal(h)
            &&& forall|h: SignalId| h != g ==> #[trigger] t.subscribers(h) == s.subscribers(h)
            &&& forall|h: SignalId| h != g ==> #[trigger] u.subscribers(h) == s.subscribers(h)
            &&& s.has_signal(g) ==> {
                &&& s.subscribers(g).is_prefix_of(t.subscribers(g))
                &&& forall|x: EffectId| #[trigger]
                    t.subscribers(g).contains(x) <==> s.subscribers(g).contains(x) || x == e
            }
            &&& forall|x: EffectId| #[trigger]
                u.subscribers(g).contains(x) <==> s.subscribers(g).contains(x) && x != e
        }),
{
    law_insert_once(s.subscribers(g), e);
    facts::lemma_insert_once(s.subscribers(g), e);
    facts::lemma_without_members(s.subscribers(g), e);
}

/// An effect that is unsubscribed from its sources is a subscriber of none of them; nothing
/// else changes, not even what it says that it reads.
pub proof fn law_unsubscribe_all(s: State, e: EffectId)
    ensures
        ({
            let t = s.unsubscribe(e);
            &&& t == (State { signals: t.signals, ..s })
            &&& forall|g: SignalId| #[trigger] t.has_signal(g) <==> s.has_signal(g)
            &&& forall|g: SignalId, x: EffectId| #[trigger]
                t.subscribers(g).contains(x) <==> s.subscribers(g).contains(x) && !(x == e
                    && s.has_source(e, g))
        }),
{
    let t = s.unsubscribe(e);
    tree::lemma_unsubscribe(s, e);
    assert forall|g: SignalId, x: EffectId| #[trigger]
        t.subscribers(g).contains(x) <==> s.subscribers(g).contains(x) && !(x == e
            && s.has_source(e, g)) by {
        facts::lemma_reads_source(s.links(e), g);
    }
}

/// An effect that is unregistered is a writer of none of its outputs; nothing else changes.
pub proof fn law_unregister_all(s: State, e: EffectId)
    ensures
        ({
            let t = s.unregister(e);
            &&& t == (State { writers: t.writers, ..s })
            &&& forall|g: SignalId, x: EffectId| #[trigger]
                t.writers_of(g).contains(x) <==> s.writers_of(g).contains(x) && !(x == e
                    && links::writes(s.links(e), g))
        }),
{
    let t = s.unregister(e);
    tree::lemma_unregistered(s, s.outputs(e), e);
    assert forall|g: SignalId, x: EffectId| #[trigger]
        t.writers_of(g).contains(x) <==> s.writers_of(g).contains(x) && !(x == e && links::writes(
            s.links(e),
            g,
        )) by {
        links::law_outputs_are_written(s.links(e), g);
    }
}

/// Whoever goes from a list leaves the order of the others as it is.
pub proof fn law_removal_keeps_the_order<A>(a: Seq<A>, x: A, b: Seq<A>)
    requires
        !a.contains(x),
        !b.contains(x),
    ensures
        model::without(a + seq![x] + b, x) == a + b,
{
    law_without(a + seq![x], b, x, x);
    law_without(a, seq![x], x, x);
    facts::lemma_without_absent(a, x);
    facts::lemma_without_absent(b, x);
    assert(a + Seq::<A>::empty() =~= a);
}

/// So does a subscriber that goes, by itself or because it forgets its reads.
pub proof fn law_unsubscribing_keeps_the_order(
    s: State,
    g: SignalId,
    a: Seq<EffectId>,
    e: EffectId,
    b: Seq<EffectId>,
)
    requires
        !a.contains(e),
        !b.contains(e),
        s.subscribers(g) == a + seq![e] + b,
    ensures
        s.remove_subscriber(g, e).subscribers(g) == a + b,
        s.has_source(e, g) ==> s.unsubscribe(e).subscribers(g) == a + b,
        s.has_source(e, g) ==> s.forget_run(e).subscribers(g) == a + b,
{
    let whole = a + seq![e] + b;
    assert(whole[a.len() as int] == e);
    assert(s.has_signal(g));
    law_removal_keeps_the_order(a, e, b);
    facts::lemma_reads_source(s.links(e), g);
    facts::lemma_signal_hit(s.sources(e), s.signal_gens, g);
    if s.has_source(e, g) {
        let off = s.unsubscribe(e);
        assert(off.subscribers(g) == a + b);
        assert(s.forget_run(e).signals == off.signals);
        assert(s.forget_run(e).subscribers(g) == off.subscribers(g));
    }
}

/// So does a writer that goes, and a child.
pub proof fn law_unregistering_keeps_the_order(
    s: State,
    g: SignalId,
    p: EffectId,
    a: Seq<EffectId>,
    e: EffectId,
    b: Seq<EffectId>,
)
    requires
        !a.contains(e),
        !b.contains(e),
    ensures
        s.writers_of(g) == a + seq![e] + b ==> s.remove_writer(g, e).writers_of(g) == a + b,
        s.writers_of(g) == a + seq![e] + b && links::writes(s.links(e), g) ==> s.unregister(
            e,
        ).writers_of(g) == a + b,
        s.children_of(p) == a + seq![e] + b ==> s.remove_child(p, e).children_of(p) == a + b,
{
    let whole = a + seq![e] + b;
    assert(whole[a.len() as int] == e);
    law_removal_keeps_the_order(a, e, b);
    links::law_outputs_are_written(s.links(e), g);
    if (a + b).len() == 0 {
        assert(a + b =~= Seq::<EffectId>::empty());
    }
}

// ---------------------------------------------------------------------------
// The pending set and the maps
// ---------------------------------------------------------------------------

/// The pending set gains or loses one effect, or all; nothing else changes. Whoever comes,
/// comes last; whoever goes leaves its place to the last one.
pub proof fn law_pending(s: State, e: EffectId)
    requires
        s.pending.no_duplicates(),
    ensures
        ({
            let t = s.pending_insert(e);
            let u = s.pending_remove(e);
            let v = s.pending_clear();
            &&& t == (State { pending: t.pending, ..s })
            &&& u == (State { pending: u.pending, ..s })
            &&& v == (State { pending: v.pending, ..s })
            &&& s.pending.is_prefix_of(t.pending)
            &&& forall|x: EffectId| #[trigger]
                t.pending.contains(x) <==> s.pending.contains(x) || x == e
            &&& forall|x: EffectId| #[trigger]
                u.pending.contains(x) <==> s.pending.contains(x) && x != e
            &&& !s.pending.contains(e) ==> u == s
            &&& forall|k: int|
                0 <= k < s.pending.len() && #[trigger] s.pending[k] == e ==> {
                    &&& u.pending.len() == s.pending.len() - 1
                    &&& k < u.pending.len() ==> u.pending[k] == s.pending.last()
                    &&& forall|i: int|
                        0 <= i < u.pending.len() && i != k ==> #[trigger] u.pending[i]
                            == s.pending[i]
                }
            &&& v.pending.len() == 0
            &&& t.pending.no_duplicates()
            &&& u.pending.no_duplicates()
        }),
{
    law_insert_once(s.pending, e);
    facts::lemma_insert_once(s.pending, e);
    facts::lemma_swap_removed(s.pending, e);
    if s.pending.contains(e) {
        let j = s.pending.index_of(e);
        law_swap_removed(s.pending, j);
        assert forall|k: int| 0 <= k < s.pending.len() && #[trigger] s.pending[k] == e implies k
            == j by {}
    }
}

/// The two lists into which the pending effects fall keep their order, and hold each of them
/// once: effect by effect it goes into the one list or into the other.
pub proof fn law_pending_split_in_order(s: State, e: EffectId)
    ensures
        ({
            let t = State { pending: s.pending.push(e), ..s };
            let (must, can) = s.pending_split();
            t.pending_split() == if s.is_skippable(e) {
                (must, can.push(e))
            } else {
                (must.push(e), can)
            }
        }),
        (State { pending: Seq::empty(), ..s }).pending_split() == (
            Seq::<EffectId>::empty(),
            Seq::<EffectId>::empty(),
        ),
{
    let t = State { pending: s.pending.push(e), ..s };
    let must = |x: EffectId| !s.is_skippable(x);
    let can = |x: EffectId| s.is_skippable(x);
    let must_t = |x: EffectId| !t.is_skippable(x);
    let can_t = |x: EffectId| t.is_skippable(x);
    assert(must =~= must_t);
    assert(can =~= can_t);
    assert(s.pending.push(e).drop_last() =~= s.pending);
    reveal(Seq::filter);
    assert(t.pending.filter(must) == if must(e) {
        s.pending.filter(must).push(e)
    } else {
        s.pending.filter(must)
    });
    assert(t.pending.filter(can) == if can(e) {
        s.pending.filter(can).push(e)
    } else {
        s.pending.filter(can)
    });
}

/// A parent is noted, and nothing else.
pub proof fn law_set_parent(s: State, e: EffectId, p: EffectId)
    ensures
        ({
            let t = s.set_parent(e, p);
            &&& t == (State { parents: t.parents, ..s })
            &&& t.parents.contains_key(e) && t.parents[e] == p
            &&& forall|x: EffectId|
                x != e ==> (#[trigger] t.parents.contains_key(x) <==> s.parents.contains_key(x))
            &&& forall|x: EffectId|
                x != e && #[trigger] s.parents.contains_key(x) ==> t.parents[x] == s.parents[x]
        }),
{
}

/// Children come last, go one by one or all at once, and those of others stay as they are.
pub proof fn law_children(s: State, p: EffectId, c: EffectId)
    ensures
        ({
            let t = s.add_child(p, c);
            let u = s.remove_child(p, c);
            let v = s.clear_children(p);
            &&& t == (State { children: t.children, ..s })
            &&& u == (State { children: u.children, ..s })
            &&& v == (State { children: v.children, ..s })
            &&& t.children_of(p) == s.children_of(p).push(c)
            &&& forall|x: EffectId| #[trigger]
                u.children_of(p).contains(x) <==> s.children_of(p).contains(x) && x != c
            &&& v.children_of(p).len() == 0
            &&& u.children_of(p).len() == 0 ==> !u.children.contains_key(p)
            &&& !v.children.contains_key(p)
            &&& forall|x: EffectId| x != p ==> #[trigger] t.children_of(x) == s.children_of(x)
            &&& forall|x: EffectId| x != p ==> #[trigger] u.children_of(x) == s.children_of(x)
            &&& forall|x: EffectId| x != p ==> #[trigger] v.children_of(x) == s.children_of(x)
        }),
{
    let rest = model::without(s.children_of(p), c);
    let u = s.remove_child(p, c);
    facts::lemma_without_members(s.children_of(p), c);
    if rest.len() == 0 {
        assert(rest =~= Seq::<EffectId>::empty());
    }
    assert(u.children_of(p) == rest);
}

/// A writer is registered once, or not any more, and no other changes. A new writer comes
/// last, and a signal without writers has no entry.
pub proof fn law_writers(s: State, g: SignalId, e: EffectId)
    ensures
        ({
            let t = s.add_writer(g, e);
            let u = s.remove_writer(g, e);
            &&& t == (State { writers: t.writers, ..s })
            &&& u == (State { writers: u.writers, ..s })
            &&& s.writers_of(g).is_prefix_of(t.writers_of(g))
            &&& forall|x: EffectId| #[trigger]
                t.writers_of(g).contains(x) <==> s.writers_of(g).contains(x) || x == e
            &&& forall|x: EffectId| #[trigger]
                u.writers_of(g).contains(x) <==> s.writers_of(g).contains(x) && x != e
            &&& u.writers_of(g).len() == 0 ==> !u.writers.contains_key(g)
            &&& forall|h: SignalId| h != g ==> #[trigger] t.writers_of(h) == s.writers_of(h)
            &&& forall|h: SignalId| h != g ==> #[trigger] u.writers_of(h) == s.writers_of(h)
        }),
{
    let rest = model::without(s.writers_of(g), e);
    let u = s.remove_writer(g, e);
    law_insert_once(s.writers_of(g), e);
    facts::lemma_insert_once(s.writers_of(g), e);
    facts::lemma_without_members(s.writers_of(g), e);
    if rest.len() == 0 {
        assert(rest =~= Seq::<EffectId>::empty());
    }
    assert(u.writers_of(g) == rest);
}

// ---------------------------------------------------------------------------
// The running thread
// ---------------------------------------------------------------------------

/// To set the current effect, what is scheduled, or what the last update has done, changes
/// nothing else.
pub proof fn law_thread(s: State, e: Option<EffectId>, b: bool)
    ensures
        s.with_current(e) == (State { local: LocalModel { current: e, ..s.local }, ..s }),
        s.with_scheduled(b) == (State { local: LocalModel { scheduled: b, ..s.local }, ..s }),
        s.with_updated(b) == (State { local: LocalModel { updated: b, ..s.local }, ..s }),
{
}

/// To schedule processing says so to this thread and, if there is one, to the effect loop;
/// it changes nothing else, and no notice that was there is lost.
pub proof fn law_schedule(s: State)
    ensures
        ({
            let t = s.schedule();
            &&& t == (State { notice: t.notice, local: LocalModel { scheduled: true, ..s.local }, ..s })
            &&& t.notice <==> s.notice || s.attached
            &&& s.notify_loop() == (State { notice: t.notice, ..s })
        }),
{
}

/// What begins an activity begins that one, on top of all others, and does nothing yet.
pub proof fn law_beginnings(s: State, e: EffectId, g: SignalId, skip: bool, kind: RunKind)
    ensures
        ({
            let pulled = FrameModel::Pull {
                writers: s.writers_of(g),
                next: 0,
                current: s.local.current,
                skip,
            };
            let pulled_all = FrameModel::Pull {
                writers: s.writers_of(g),
                next: 0,
                current: s.local.current,
                skip: false,
            };
            let read = FrameModel::Track { signal: g, effect: s.local.current };
            let all = FrameModel::Flush { ids: Seq::empty(), next: 0, total: 0 };
            &&& s.update(e, skip) == with_activities(s, seq![FrameModel::Update { effect: e, skip }])
            &&& s.start(e, kind) == with_activities(s, seq![FrameModel::Start { effect: e, kind }])
            &&& s.pull(g, skip) == with_activities(s, seq![pulled])
            &&& s.pull_and_track(g) == with_activities(s, seq![read, pulled_all])
            &&& s.process_all() == with_activities(s, seq![all])
            &&& s.flush() == with_activities(
                State { local: LocalModel { scheduled: false, ..s.local }, ..s },
                seq![all],
            )
        }),
{
    let read = FrameModel::Track { signal: g, effect: s.local.current };
    let all = FrameModel::Flush { ids: Seq::empty(), next: 0, total: 0 };
    let f = s.local.frames;
    assert(f.push(FrameModel::Update { effect: e, skip }) =~= f + seq![
        FrameModel::Update { effect: e, skip },
    ]);
    assert(f.push(FrameModel::Start { effect: e, kind }) =~= f + seq![
        FrameModel::Start { effect: e, kind },
    ]);
    let pulled = FrameModel::Pull {
        writers: s.writers_of(g),
        next: 0,
        current: s.local.current,
        skip,
    };
    let pulled_all = FrameModel::Pull {
        writers: s.writers_of(g),
        next: 0,
        current: s.local.current,
        skip: false,
    };
    assert(f.push(pulled) =~= f + seq![pulled]);
    assert(f.push(read).push(pulled_all) =~= f + seq![read, pulled_all]);
    assert(s.push_frame(read).writers_of(g) == s.writers_of(g));
    assert(f.push(all) =~= f + seq![all]);
}

/// `s` with activities more, the innermost last.
pub open spec fn with_activities(s: State, more: Seq<FrameModel>) -> State {
    State { local: LocalModel { frames: s.local.frames + more, ..s.local }, ..s }
}

/// To give activities up gives up the innermost ones, all above the outermost `depth`, and
/// changes nothing else.
pub proof fn law_abandon(s: State, depth: nat)
    ensures
        ({
            let t = s.abandon(depth);
            &&& t == (State { local: LocalModel { frames: t.local.frames, ..s.local }, ..s })
            &&& depth >= s.local.frames.len() ==> t.local.frames == s.local.frames
            &&& depth < s.local.frames.len() ==> t.local.frames.len() == depth
            &&& t.local.frames.is_prefix_of(s.local.frames)
        }),
{
    let t = s.abandon(depth);
    assert(t.local.frames =~= s.local.frames.subrange(0, t.local.frames.len() as int));
}

// ---------------------------------------------------------------------------
// Reads
// ---------------------------------------------------------------------------

/// A read that is tracked changes nothing but what the reader reads and who is subscribed to
/// the signal; one that is not tracked changes nothing. A stale signal gets no subscriber,
/// and a stale reader notes no source.
pub proof fn law_track_touches_nothing_else(s: State, g: SignalId, e: EffectId)
    ensures
        s.track(g, None) == s,
        ({
            let t = s.track(g, Some(e));
            &&& t == (State { effects: t.effects, signals: t.signals, ..s })
            &&& forall|x: EffectId| #[trigger] t.has_effect(x) <==> s.has_effect(x)
            &&& forall|x: EffectId|
                x != e && #[trigger] s.has_effect(x) ==> t.effect(x) == s.effect(x)
            &&& s.has_effect(e) ==> t.effect(e) == (EffectModel {
                signals: t.links(e),
                ..s.effect(e)
            })
            &&& forall|x: EffectId, h: SignalId| #[trigger]
                t.has_source(x, h) <==> s.has_source(x, h) || (x == e && h == g && s.has_effect(e))
            &&& forall|h: SignalId| #[trigger] t.has_signal(h) <==> s.has_signal(h)
            &&& forall|h: SignalId, x: EffectId| #[trigger]
                t.subscribers(h).contains(x) <==> s.subscribers(h).contains(x) || (x == e && h == g
                    && s.has_signal(g))
        }),
{
    let read = s.add_source(e, g);
    let t = s.track(g, Some(e));
    law_noting_a_signal(s, e, g, false);
    law_subscriptions(read, g, e);
    assert forall|h: SignalId| #[trigger] read.subscribers(h) == s.subscribers(h) by {}
    assert forall|x: EffectId, h: SignalId| #[trigger]
        t.has_source(x, h) <==> s.has_source(x, h) || (x == e && h == g && s.has_effect(e)) by {
        assert(t.has_source(x, h) == read.has_source(x, h));
        if x != e && s.has_effect(x) && s.has_effect(e) {
            assert(x.0 != e.0);
        }
    }
    assert forall|h: SignalId, x: EffectId| #[trigger]
        t.subscribers(h).contains(x) <==> s.subscribers(h).contains(x) || (x == e && h == g
            && s.has_signal(g)) by {
        assert(read.subscribers(h) == s.subscribers(h));
    }
}

/// What a computed value is asked for decides whether it is computed: only a stale one, and
/// only if the current effect does not depend on it yet. The read itself changes nothing
/// before that.
pub proof fn law_refresh_begins(s: State, g: SignalId, c: EffectId)
    ensures
        ({
            let read = FrameModel::Track { signal: g, effect: s.local.current };
            let known = s.local.current is Some && s.has_source(s.local.current->0, g);
            &&& s.state_of(c) is Clean || known ==> s.refresh(g, c) == with_activities(
                s,
                seq![read],
            )
            &&& s.state_of(c) !is Clean && !known ==> s.refresh(g, c) == with_activities(
                s,
                seq![read, FrameModel::Update { effect: c, skip: false }],
            )
        }),
{
    let read = FrameModel::Track { signal: g, effect: s.local.current };
    let f = s.local.frames;
    assert(f.push(read) =~= f + seq![read]);
    assert(f.push(read).push(FrameModel::Update { effect: c, skip: false }) =~= f + seq![
        read,
        FrameModel::Update { effect: c, skip: false },
    ]);
}

} // verus!
