//! Facts about the functions of the model that the executable code relies on.
use vstd::prelude::*;

use crate::arena::effect_arena::EffectId;
use crate::arena::effect_arena::ReactiveState;
use crate::arena::signal_arena::SignalId;
use crate::lists;
use crate::model;
use crate::model::graph;
use crate::model::spread;
use crate::model::EffectModel;
use crate::model::Link;
use crate::model::State;
use crate::runtime;

verus! {

// ---------------------------------------------------------------------------
// Lists
// ---------------------------------------------------------------------------

/// To take an element out twice is to take it out once.
pub proof fn lemma_without_twice<A>(s: Seq<A>, x: A)
    ensures
        model::without(model::without(s, x), x) == model::without(s, x),
    decreases s.len(),
{
    let keep = model::other_than(x);
    if s.len() > 0 {
        let front = s.drop_last();
        lemma_without_twice(front, x);
        assert(s =~= front.push(s.last()));
        lists::lemma_filter_push(front, s.last(), keep);
        lists::lemma_filter_push(front.filter(keep), s.last(), keep);
    } else {
        reveal(Seq::filter);
    }
}

/// What `without` keeps.
pub proof fn lemma_without_members<A>(s: Seq<A>, x: A)
    ensures
        forall|y: A| #[trigger] model::without(s, x).contains(y) <==> s.contains(y) && y != x,
{
    let keep = model::other_than(x);
    assert forall|y: A| #[trigger] model::without(s, x).contains(y) <==> s.contains(y) && y != x by {
        if s.contains(y) && y != x {
            let i = s.index_of(y);
            s.lemma_filter_contains(keep, i);
        }
        if s.filter(keep).contains(y) {
            s.lemma_filter_contains_rev(keep, y);
            let i = s.filter(keep).index_of(y);
            s.lemma_filter_pred(keep, i);
        }
    }
}

/// `without` changes nothing where there is nothing to take out.
pub proof fn lemma_without_absent<A>(s: Seq<A>, x: A)
    requires
        !s.contains(x),
    ensures
        model::without(s, x) == s,
    decreases s.len(),
{
    let keep = model::other_than(x);
    reveal(Seq::filter);
    if s.len() > 0 {
        let front = s.drop_last();
        assert forall|y: A| front.contains(y) implies s.contains(y) by {
            let i = front.index_of(y);
            assert(s[i] == y);
        }
        lemma_without_absent(front, x);
        assert(s.contains(s.last()));
        assert(s =~= front.push(s.last()));
    }
}

/// `first_index` finds what is there, and its first place.
pub proof fn lemma_first_index<A>(s: Seq<A>, x: A)
    ensures
        0 <= model::first_index(s, x) <= s.len(),
        s.contains(x) <==> model::first_index(s, x) < s.len(),
        model::first_index(s, x) < s.len() ==> s[model::first_index(s, x)] == x,
        forall|j: int| 0 <= j < model::first_index(s, x) ==> s[j] != x,
    decreases s.len(),
{
    if s.len() > 0 && s[0] != x {
        let rest = s.drop_first();
        lemma_first_index(rest, x);
        if s.contains(x) {
            let i = s.index_of(x);
            assert(rest[i - 1] == x);
        }
        assert forall|j: int| 0 <= j < model::first_index(s, x) implies s[j] != x by {
            if j > 0 {
                assert(rest[j - 1] == s[j]);
            }
        }
    }
}

/// Sets of indices and sets of effects go together.
pub proof fn lemma_effects_of(s: Seq<(u32, u64)>, x: (u32, u64))
    ensures
        s.map_values(runtime::effect_of()).contains(EffectId(x.0, x.1)) <==> s.contains(x),
        model::insert_once(s, x).map_values(runtime::effect_of()) == model::insert_once(
            s.map_values(runtime::effect_of()),
            EffectId(x.0, x.1),
        ),
        model::swap_removed(s, x).map_values(runtime::effect_of()) == model::swap_removed(
            s.map_values(runtime::effect_of()),
            EffectId(x.0, x.1),
        ),
{
    let f = runtime::effect_of();
    let t = s.map_values(f);
    if s.contains(x) {
        let i = s.index_of(x);
        assert(t[i] == EffectId(x.0, x.1));
    }
    if t.contains(EffectId(x.0, x.1)) {
        let i = t.index_of(EffectId(x.0, x.1));
        assert(s[i] == x);
    }
    assert(s.push(x).map_values(f) =~= t.push(EffectId(x.0, x.1)));
    if s.contains(x) {
        lemma_first_index(s, x);
        lemma_first_index(t, EffectId(x.0, x.1));
        let i = model::first_index(s, x);
        let j = model::first_index(t, EffectId(x.0, x.1));
        assert(i == j) by {
            assert(t[i] == EffectId(x.0, x.1));
            assert(s[j] == x);
        }
        assert(s.update(i, s.last()).drop_last().map_values(f) =~= t.update(
            i,
            t.last(),
        ).drop_last());
    }
}

/// A new element at the end of a repetition-free list.
pub proof fn lemma_push_distinct<A>(s: Seq<A>, x: A)
    requires
        s.no_duplicates(),
        !s.contains(x),
    ensures
        s.push(x).no_duplicates(),
{
    let t = s.push(x);
    assert forall|i: int, j: int| 0 <= i < t.len() && 0 <= j < t.len() && i != j implies t[i]
        != t[j] by {
        if i == s.len() {
            assert(s.contains(s[j]));
        } else if j == s.len() {
            assert(s.contains(s[i]));
        }
    }
}

/// What `insert_once` does to the members.
pub proof fn lemma_insert_once<A>(s: Seq<A>, x: A)
    ensures
        forall|y: A| #[trigger] model::insert_once(s, x).contains(y) <==> s.contains(y) || y == x,
        s.no_duplicates() ==> model::insert_once(s, x).no_duplicates(),
{
    if !s.contains(x) {
        let t = s.push(x);
        assert forall|y: A| #[trigger] t.contains(y) <==> s.contains(y) || y == x by {
            if s.contains(y) {
                let i = s.index_of(y);
                assert(t[i] == y);
            }
            if y == x {
                assert(t[s.len() as int] == y);
            }
        }
        if s.no_duplicates() {
            lemma_push_distinct(s, x);
        }
    }
}

/// What `swap_removed` does to the members of a repetition-free list.
pub proof fn lemma_swap_removed<A>(s: Seq<A>, x: A)
    requires
        s.no_duplicates(),
    ensures
        forall|y: A| #[trigger] model::swap_removed(s, x).contains(y) <==> s.contains(y) && y != x,
        model::swap_removed(s, x).no_duplicates(),
{
    if s.contains(x) {
        lemma_first_index(s, x);
        let i = model::first_index(s, x);
        let n = s.len() - 1;
        let t = model::swap_removed(s, x);
        assert forall|j: int| 0 <= j < n implies #[trigger] t[j] == (if j == i {
            s[n]
        } else {
            s[j]
        }) by {}
        assert forall|y: A| #[trigger] t.contains(y) <==> s.contains(y) && y != x by {
            if s.contains(y) && y != x {
                let j = s.index_of(y);
                if j == n {
                    assert(t[i] == y);
                } else {
                    assert(t[j] == y);
                }
            }
            if t.contains(y) {
                let j = t.index_of(y);
                if j == i {
                    assert(s[n] == y);
                } else {
                    assert(s[j] == y);
                }
            }
        }
    }
}

/// A repetition-free list stays so.
pub proof fn lemma_without_distinct<A>(s: Seq<A>, x: A)
    requires
        s.no_duplicates(),
    ensures
        model::without(s, x).no_duplicates(),
    decreases s.len(),
{
    let keep = model::other_than(x);
    if s.len() > 0 {
        let front = s.drop_last();
        lemma_without_distinct(front, x);
        assert(s =~= front.push(s.last()));
        lists::lemma_filter_push(front, s.last(), keep);
        lemma_without_members(front, x);
        assert(!front.contains(s.last()));
        if keep(s.last()) {
            lemma_push_distinct(front.filter(keep), s.last());
        }
    } else {
        reveal(Seq::filter);
    }
}

// ---------------------------------------------------------------------------
// Unsubscribing and unregistering, one signal at a time
// ---------------------------------------------------------------------------

/// Which slots a list of signals with one more hits.
pub proof fn lemma_signal_hit_push(list: Seq<SignalId>, x: SignalId, gens: Seq<u64>)
    ensures
        forall|i: int| #[trigger]
            graph::signal_hit(list.push(x), gens, i) <==> graph::signal_hit(list, gens, i) || (x.0
                == i && x.1 == graph::gen_at(gens, i)),
{
    let more = list.push(x);
    assert forall|i: int| #[trigger] graph::signal_hit(more, gens, i) <==> graph::signal_hit(
        list,
        gens,
        i,
    ) || (x.0 == i && x.1 == graph::gen_at(gens, i)) by {
        if graph::signal_hit(list, gens, i) {
            let j = choose|j: int|
                0 <= j < list.len() && (#[trigger] list[j]).0 == i && list[j].1 == graph::gen_at(
                    gens,
                    i,
                );
            assert(more[j] == list[j]);
        }
        if x.0 == i {
            assert(more[list.len() as int].0 == i);
        }
        if graph::signal_hit(more, gens, i) {
            let j = choose|j: int|
                0 <= j < more.len() && (#[trigger] more[j]).0 == i && more[j].1 == graph::gen_at(
                    gens,
                    i,
                );
            if j < list.len() {
                assert(list[j] == more[j]);
            }
        }
    }
}

/// A list hits the slot of a live signal exactly if it holds it.
pub proof fn lemma_signal_hit(list: Seq<SignalId>, gens: Seq<u64>, g: SignalId)
    requires
        g.1 == graph::gen_at(gens, g.0 as int),
    ensures
        graph::signal_hit(list, gens, g.0 as int) <==> list.contains(g),
{
    if list.contains(g) {
        let j = list.index_of(g);
        assert(list[j].0 == g.0 as int && list[j].1 == graph::gen_at(gens, g.0 as int));
    }
    if graph::signal_hit(list, gens, g.0 as int) {
        let j = choose|j: int|
            0 <= j < list.len() && (#[trigger] list[j]).0 == g.0 as int && list[j].1
                == graph::gen_at(gens, g.0 as int);
        assert(list[j] == g);
    }
}

/// A list hits the slot of a live effect exactly if it holds it.
pub proof fn lemma_effect_hit(list: Seq<EffectId>, gens: Seq<u64>, e: EffectId)
    requires
        e.1 == graph::gen_at(gens, e.0 as int),
    ensures
        graph::effect_hit(list, gens, e.0 as int) <==> list.contains(e),
{
    if list.contains(e) {
        let j = list.index_of(e);
        assert(list[j].0 == e.0 as int && list[j].1 == graph::gen_at(gens, e.0 as int));
    }
    if graph::effect_hit(list, gens, e.0 as int) {
        let j = choose|j: int|
            0 <= j < list.len() && (#[trigger] list[j]).0 == e.0 as int && list[j].1
                == graph::gen_at(gens, e.0 as int);
        assert(list[j] == e);
    }
}

/// One more signal whose subscriber `effect` no longer is.
pub proof fn lemma_unsubscribed_push(s: State, sources: Seq<SignalId>, x: SignalId, effect: EffectId)
    ensures
        (State {
            signals: graph::unsubscribed(s.signals, s.signal_gens, sources, effect),
            ..s
        }).remove_subscriber(x, effect).signals == graph::unsubscribed(
            s.signals,
            s.signal_gens,
            sources.push(x),
            effect,
        ),
{
    let mid = State {
        signals: graph::unsubscribed(s.signals, s.signal_gens, sources, effect),
        ..s
    };
    let left = mid.remove_subscriber(x, effect).signals;
    let right = graph::unsubscribed(s.signals, s.signal_gens, sources.push(x), effect);
    lemma_signal_hit_push(sources, x, s.signal_gens);
    assert forall|i: int| 0 <= i < s.signals.len() implies left[i] == right[i] by {
        if s.signals[i] is Some {
            lemma_without_twice(s.signals[i]->0, effect);
        }
    }
    assert(left =~= right);
}

/// Nothing to unsubscribe from changes nothing.
pub proof fn lemma_unsubscribed_none(s: State, effect: EffectId)
    ensures
        graph::unsubscribed(s.signals, s.signal_gens, Seq::empty(), effect) == s.signals,
{
    assert(graph::unsubscribed(s.signals, s.signal_gens, Seq::empty(), effect) =~= s.signals);
}

/// One more signal whose writer `effect` no longer is.
pub proof fn lemma_unwritten_push(s: State, outputs: Seq<SignalId>, x: SignalId, effect: EffectId)
    ensures
        (State { writers: graph::unwritten(s.writers, outputs, effect), ..s }).remove_writer(
            x,
            effect,
        ).writers == graph::unwritten(s.writers, outputs.push(x), effect),
{
    let mid = State { writers: graph::unwritten(s.writers, outputs, effect), ..s };
    let left = mid.remove_writer(x, effect).writers;
    let right = graph::unwritten(s.writers, outputs.push(x), effect);
    let more = outputs.push(x);
    assert forall|y: SignalId| more.contains(y) <==> outputs.contains(y) || y == x by {
        if outputs.contains(y) {
            let j = outputs.index_of(y);
            assert(more[j] == y);
        }
        if y == x {
            assert(more[outputs.len() as int] == y);
        }
    }
    assert forall|k: SignalId| #[trigger] s.writers.contains_key(k) implies left.contains_key(k)
        == right.contains_key(k) && (left.contains_key(k) ==> left[k] == right[k]) by {
        lemma_without_twice(s.writers[k], effect);
    }
    assert(left =~= right);
}

/// Nothing to unregister from changes nothing.
pub proof fn lemma_unwritten_none(s: State, effect: EffectId)
    ensures
        graph::unwritten(s.writers, Seq::empty(), effect) == s.writers,
{
    assert(graph::unwritten(s.writers, Seq::empty(), effect) =~= s.writers);
}

// ---------------------------------------------------------------------------
// The tree under an effect
// ---------------------------------------------------------------------------

/// Taking a tree out of the map of children does not make it larger.
pub proof fn lemma_take_tree_shrinks(c: Map<EffectId, Seq<EffectId>>, effect: EffectId)
    ensures
        spread::take_tree(c, effect).0.dom().subset_of(c.dom()),
        spread::take_tree(c, effect).0.dom().len() <= c.dom().len(),
    decreases c.dom().len(), 0nat,
{
    spread::lemma_effects_finite(c.dom());
    if c.contains_key(effect) {
        lemma_take_trees_shrinks(c.remove(effect), c[effect]);
    }
}

/// As `lemma_take_tree_shrinks`, for a list of roots.
pub proof fn lemma_take_trees_shrinks(c: Map<EffectId, Seq<EffectId>>, list: Seq<EffectId>)
    ensures
        spread::take_trees(c, list).0.dom().subset_of(c.dom()),
        spread::take_trees(c, list).0.dom().len() <= c.dom().len(),
    decreases c.dom().len(), list.len(),
{
    if list.len() > 0 {
        lemma_take_tree_shrinks(c, list[0]);
        lemma_take_trees_shrinks(spread::take_tree(c, list[0]).0, list.drop_first());
    }
}

// ---------------------------------------------------------------------------
// Check marking
// ---------------------------------------------------------------------------

/// `t` is `s` with some Clean effects marked Check, and perhaps others pending.
pub open spec fn checked_from(s: State, t: State) -> bool {
    &&& t == State { effects: t.effects, pending: t.pending, ..s }
    &&& t.effects.len() == s.effects.len()
    &&& forall|i: int| 0 <= i < s.effects.len() ==> #[trigger] slot_checked(s.effects[i], t.effects[i])
}

/// A slot is as it was, or its effect was Clean and is Check.
pub open spec fn slot_checked(a: Option<EffectModel>, b: Option<EffectModel>) -> bool {
    match (a, b) {
        (Some(m), Some(n)) => m == n || (m.state is Clean && n == EffectModel {
            state: ReactiveState::Check,
            ..m
        }),
        (None, None) => true,
        _ => false,
    }
}

/// Marking does not make effects Clean.
pub proof fn lemma_checked_count(a: Seq<Option<EffectModel>>, b: Seq<Option<EffectModel>>)
    requires
        a.len() == b.len(),
        forall|i: int| 0 <= i < a.len() ==> #[trigger] slot_checked(a[i], b[i]),
    ensures
        spread::clean_count(b) <= spread::clean_count(a),
    decreases a.len(),
{
    if a.len() > 0 {
        assert forall|i: int| 0 <= i < a.drop_last().len() implies #[trigger] slot_checked(
            a.drop_last()[i],
            b.drop_last()[i],
        ) by {
            assert(slot_checked(a[i], b[i]));
        }
        lemma_checked_count(a.drop_last(), b.drop_last());
        assert(slot_checked(a[a.len() - 1], b[b.len() - 1]));
    }
}

/// Marking after marking is marking.
pub proof fn lemma_checked_trans(s: State, t: State, u: State)
    requires
        checked_from(s, t),
        checked_from(t, u),
    ensures
        checked_from(s, u),
{
    assert forall|i: int| 0 <= i < s.effects.len() implies #[trigger] slot_checked(
        s.effects[i],
        u.effects[i],
    ) by {
        assert(slot_checked(s.effects[i], t.effects[i]));
        assert(slot_checked(t.effects[i], u.effects[i]));
    }
}

/// `check_effect` marks, and does nothing else.
pub proof fn lemma_check_effect(s: State, effect: EffectId)
    ensures
        checked_from(s, s.check_effect(effect)),
        spread::clean_count(s.check_effect(effect).effects) <= spread::clean_count(s.effects),
    decreases spread::clean_count(s.effects), 0nat,
{
    if s.state_of(effect) is Clean {
        let marked = s.mark_check_one(effect);
        assert(checked_from(s, marked));
        if s.has_effect(effect) {
            spread::lemma_clean_count_update(
                s.effects,
                effect.0 as int,
                Some(EffectModel { state: ReactiveState::Check, ..s.effect(effect) }),
            );
            lemma_check_list(marked, s.successors(effect));
            lemma_checked_trans(s, marked, marked.check_list(s.successors(effect)));
        }
    }
    lemma_checked_count(s.effects, s.check_effect(effect).effects);
}

/// `check_list` marks, and does nothing else.
pub proof fn lemma_check_list(s: State, list: Seq<EffectId>)
    ensures
        checked_from(s, s.check_list(list)),
        spread::clean_count(s.check_list(list).effects) <= spread::clean_count(s.effects),
    decreases spread::clean_count(s.effects), list.len(),
{
    if list.len() > 0 {
        let next = s.check_effect(list[0]);
        lemma_check_effect(s, list[0]);
        lemma_check_list(next, list.drop_first());
        lemma_checked_trans(s, next, next.check_list(list.drop_first()));
    }
}

/// One step of `check_list`, without its guard.
pub proof fn lemma_check_list_step(s: State, list: Seq<EffectId>)
    requires
        list.len() > 0,
    ensures
        s.check_list(list) == s.check_effect(list[0]).check_list(list.drop_first()),
{
    lemma_check_effect(s, list[0]);
}

/// Two lists one after the other.
pub proof fn lemma_check_list_add(s: State, a: Seq<EffectId>, b: Seq<EffectId>)
    ensures
        s.check_list(a + b) == s.check_list(a).check_list(b),
    decreases a.len(),
{
    if a.len() == 0 {
        assert(a + b =~= b);
    } else {
        lemma_check_list_step(s, a + b);
        lemma_check_list_step(s, a);
        assert((a + b).drop_first() =~= a.drop_first() + b);
        lemma_check_list_add(s.check_effect(a[0]), a.drop_first(), b);
    }
}

/// Marking leaves the links of every effect.
pub proof fn lemma_checked_links(s: State, t: State, effect: EffectId)
    requires
        checked_from(s, t),
    ensures
        t.links(effect) == s.links(effect),
        t.has_effect(effect) == s.has_effect(effect),
        t.outputs(effect) == s.outputs(effect),
        t.sources(effect) == s.sources(effect),
        forall|signal: SignalId| #[trigger] t.subscribers(signal) == s.subscribers(signal),
{
    if effect.0 < s.effects.len() {
        assert(slot_checked(s.effects[effect.0 as int], t.effects[effect.0 as int]));
    }
}

/// The effects that read something of `outputs`, in turn.
pub open spec fn readers(s: State, outputs: Seq<SignalId>) -> Seq<EffectId> {
    outputs.flat_map(|o: SignalId| s.subscribers(o))
}

/// Where nothing is written nobody reads it.
pub proof fn lemma_no_successors(s: State)
    ensures
        readers(s, Seq::empty()) == Seq::<EffectId>::empty(),
{
    reveal_with_fuel(Seq::flatten, 2);
    assert(readers(s, Seq::empty()) =~= Seq::<EffectId>::empty());
}

/// One more output.
pub proof fn lemma_readers_push(s: State, outputs: Seq<SignalId>, x: SignalId)
    ensures
        readers(s, outputs.push(x)) == readers(s, outputs) + s.subscribers(x),
{
    outputs.lemma_flat_map_push(|o: SignalId| s.subscribers(o), x);
}

/// What depends on an effect is decided by its links and by the subscribers.
pub proof fn lemma_same_successors(s: State, t: State, effect: EffectId)
    requires
        t.signals == s.signals,
        t.signal_gens == s.signal_gens,
        t.links(effect) == s.links(effect),
    ensures
        t.successors(effect) == s.successors(effect),
{
    let f = |o: SignalId| s.subscribers(o);
    let g = |o: SignalId| t.subscribers(o);
    assert(f =~= g);
}

// ---------------------------------------------------------------------------
// Telling the readers of an output
// ---------------------------------------------------------------------------

/// Those who are told over some links of an effect, in turn.
pub open spec fn told_over_all(s: State, effect: EffectId, links: Seq<Link>) -> Seq<EffectId> {
    links.flat_map(|l: Link| s.told_over(effect, l))
}

/// No links, nobody to tell.
pub proof fn lemma_told_none(s: State, effect: EffectId)
    ensures
        told_over_all(s, effect, Seq::empty()) == Seq::<EffectId>::empty(),
{
    reveal_with_fuel(Seq::flatten, 2);
    assert(told_over_all(s, effect, Seq::empty()) =~= Seq::<EffectId>::empty());
}

/// One more link.
pub proof fn lemma_told_push(s: State, effect: EffectId, links: Seq<Link>, l: Link)
    ensures
        told_over_all(s, effect, links.push(l)) == told_over_all(s, effect, links) + s.told_over(
            effect,
            l,
        ),
{
    links.lemma_flat_map_push(|l: Link| s.told_over(effect, l), l);
}

/// Which slots a list of effects with one more hits.
pub proof fn lemma_effect_hit_push(list: Seq<EffectId>, x: EffectId, gens: Seq<u64>)
    ensures
        forall|i: int| #[trigger]
            graph::effect_hit(list.push(x), gens, i) <==> graph::effect_hit(list, gens, i) || (x.0
                == i && x.1 == graph::gen_at(gens, i)),
{
    let more = list.push(x);
    assert forall|i: int| #[trigger] graph::effect_hit(more, gens, i) <==> graph::effect_hit(
        list,
        gens,
        i,
    ) || (x.0 == i && x.1 == graph::gen_at(gens, i)) by {
        if graph::effect_hit(list, gens, i) {
            let j = choose|j: int|
                0 <= j < list.len() && (#[trigger] list[j]).0 == i && list[j].1 == graph::gen_at(
                    gens,
                    i,
                );
            assert(more[j] == list[j]);
        }
        if x.0 == i {
            assert(more[list.len() as int].0 == i);
        }
        if graph::effect_hit(more, gens, i) {
            let j = choose|j: int|
                0 <= j < more.len() && (#[trigger] more[j]).0 == i && more[j].1 == graph::gen_at(
                    gens,
                    i,
                );
            if j < list.len() {
                assert(list[j] == more[j]);
            }
        }
    }
}

// ---------------------------------------------------------------------------
// Changes that change nothing
// ---------------------------------------------------------------------------

/// A Clean effect that is set Clean.
pub proof fn lemma_set_same_state(s: State, effect: EffectId)
    requires
        s.state_of(effect) is Clean,
    ensures
        s.set_state(effect, ReactiveState::Clean) == s,
{
    assert(s.set_state(effect, ReactiveState::Clean).effects =~= s.effects);
}

/// No callback that is taken out.
pub proof fn lemma_put_same_callback(s: State, effect: EffectId)
    requires
        !s.has_callback(effect),
    ensures
        s.put_callback(effect, None) == s,
{
    assert(s.put_callback(effect, None).effects =~= s.effects);
}

/// A frame that is taken off and put back.
pub proof fn lemma_pop_push(s: State)
    requires
        s.local.frames.len() > 0,
    ensures
        s.pop_frame().push_frame(s.local.frames.last()) == s,
{
    assert(s.local.frames.drop_last().push(s.local.frames.last()) =~= s.local.frames);
}

// ---------------------------------------------------------------------------
// A signal that goes
// ---------------------------------------------------------------------------

/// A source that is forgotten twice.
pub proof fn lemma_unlink_twice(links: Seq<Link>, signal: SignalId)
    ensures
        model::unlink_source(model::unlink_source(links, signal), signal) == model::unlink_source(
            links,
            signal,
        ),
{
    let keep = model::stays_without(signal);
    let change = model::unread_of(signal);
    let kept = links.filter(keep);
    let once = kept.map_values(change);
    assert forall|i: int| 0 <= i < once.len() implies keep(once[i]) && change(once[i]) == once[i] by {
        links.lemma_filter_pred(keep, i);
    }
    lemma_filter_all(once, keep);
    assert(once.map_values(change) =~= once);
}

/// A filter that all elements pass.
pub proof fn lemma_filter_all<A>(s: Seq<A>, keep: spec_fn(A) -> bool)
    requires
        forall|i: int| 0 <= i < s.len() ==> keep(#[trigger] s[i]),
    ensures
        s.filter(keep) == s,
    decreases s.len(),
{
    reveal(Seq::filter);
    if s.len() > 0 {
        assert forall|i: int| 0 <= i < s.drop_last().len() implies keep(
            #[trigger] s.drop_last()[i],
        ) by {
            assert(keep(s[i]));
        }
        lemma_filter_all(s.drop_last(), keep);
        assert(s =~= s.drop_last().push(s.last()));
    }
}

/// No effect to forget a source.
pub proof fn lemma_forget_none(s: State, signal: SignalId)
    ensures
        s.forget_source(Seq::empty(), signal) == s,
{
    assert(s.forget_source(Seq::empty(), signal).effects =~= s.effects);
}

/// One more effect to forget a source.
pub proof fn lemma_forget_push(s: State, list: Seq<EffectId>, x: EffectId, signal: SignalId)
    ensures
        s.forget_source(list.push(x), signal) == s.forget_source(list, signal).remove_source(
            x,
            signal,
        ),
{
    let more = list.push(x);
    lemma_effect_hit_push(list, x, s.effect_gens);
    let left = s.forget_source(more, signal).effects;
    let right = s.forget_source(list, signal).remove_source(x, signal).effects;
    assert forall|i: int| 0 <= i < s.effects.len() implies left[i] == right[i] by {
        if s.effects[i] is Some {
            lemma_unlink_twice(s.effects[i]->0.signals, signal);
        }
    }
    assert(left =~= right);
}

/// What is read is a source, and the other way round.
pub proof fn lemma_reads_source(links: Seq<Link>, signal: SignalId)
    ensures
        model::reads(links, signal) <==> model::sources_of(links).contains(signal),
{
    let keep = |l: Link| l.1.is_source;
    let kept = links.filter(keep);
    let names = model::sources_of(links);
    if model::reads(links, signal) {
        let i = choose|i: int|
            0 <= i < links.len() && (#[trigger] links[i]).0 == signal && links[i].1.is_source;
        links.lemma_filter_contains(keep, i);
        let j = kept.index_of(links[i]);
        assert(names[j] == signal);
    }
    if names.contains(signal) {
        let j = names.index_of(signal);
        links.lemma_filter_pred(keep, j);
        assert(kept.contains(kept[j]));
        links.lemma_filter_contains_rev(keep, kept[j]);
        let i = links.index_of(kept[j]);
        assert(links[i].0 == signal && links[i].1.is_source);
    }
}

// ---------------------------------------------------------------------------
// What a notification leaves alone
// ---------------------------------------------------------------------------

/// `t` has what `s` has besides the arenas, the pending set and the maps.
pub open spec fn same_rest(s: State, t: State) -> bool {
    &&& t.local == s.local
    &&& t.active == s.active
    &&& t.attached == s.attached
    &&& t.notice == s.notice
}

/// Destroying effects leaves the rest alone.
proof fn lemma_destroy_rest(s: State, list: Seq<EffectId>)
    ensures
        same_rest(s, s.destroy_list(list)),
    decreases list.len(),
{
    if list.len() > 0 {
        lemma_destroy_rest(s.destroy_one(list[0]), list.drop_first());
    }
}

/// Notifying effects leaves the rest alone.
pub proof fn lemma_notify_rest(s: State, list: Seq<EffectId>, from_ui: bool)
    ensures
        same_rest(s, s.notify_list(list, from_ui)),
    decreases list.len(),
{
    if list.len() > 0 {
        let e = list[0];
        if from_ui && s.is_ui_only(e) {
            lemma_notify_rest(s, list.drop_first(), from_ui);
        } else {
            let dirty = s.set_state(e, ReactiveState::Dirty);
            let bare = State { children: spread::take_tree(dirty.children, e).0, ..dirty };
            lemma_destroy_rest(bare, dirty.descendants(e));
            let marked = s.mark_pending(e);
            assert(same_rest(s, marked));
            lemma_check_list(marked, marked.successors(e));
            lemma_notify_rest(s.notify_one(e), list.drop_first(), from_ui);
        }
    }
}

} // verus!
