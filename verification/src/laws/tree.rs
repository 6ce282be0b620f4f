//! The hierarchy of effects: what is destroyed with a parent, and what is not.
use vstd::prelude::*;

use crate::arena::effect_arena::EffectId;
use crate::arena::effect_arena::ReactiveState;
use crate::arena::signal_arena::SignalId;
use crate::model;
use crate::model::facts;
use crate::model::graph;
use crate::model::spread;
use crate::model::State;

verus! {

/// Each effect of `p` is a child of the one before it.
pub open spec fn lineage(c: Map<EffectId, Seq<EffectId>>, p: Seq<EffectId>) -> bool {
    forall|i: int|
        0 <= i < p.len() - 1 ==> c.contains_key(#[trigger] p[i]) && c[p[i]].contains(p[i + 1])
}

/// `d` is a child of `e`, or a child of a child, and so on.
pub open spec fn descends(c: Map<EffectId, Seq<EffectId>>, e: EffectId, d: EffectId) -> bool {
    exists|p: Seq<EffectId>|
        p.len() >= 2 && p[0] == e && p.last() == d && #[trigger] lineage(c, p)
}

/// `d` is one of `list`, or descends from one of them.
pub open spec fn descends_from_any(
    c: Map<EffectId, Seq<EffectId>>,
    list: Seq<EffectId>,
    d: EffectId,
) -> bool {
    list.contains(d) || exists|l: EffectId| list.contains(l) && #[trigger] descends(c, l, d)
}

/// A line in a part of the map is a line in the map.
pub proof fn lemma_lineage_grows(
    c1: Map<EffectId, Seq<EffectId>>,
    c: Map<EffectId, Seq<EffectId>>,
    e: EffectId,
    d: EffectId,
)
    requires
        c1.submap_of(c),
        descends(c1, e, d),
    ensures
        descends(c, e, d),
{
    let p = choose|p: Seq<EffectId>|
        p.len() >= 2 && p[0] == e && p.last() == d && #[trigger] lineage(c1, p);
    assert forall|i: int| 0 <= i < p.len() - 1 implies c.contains_key(#[trigger] p[i])
        && c[p[i]].contains(p[i + 1]) by {
        let k = p[i];
        assert(c1.contains_key(k) && c1[k].contains(p[i + 1]));
        assert(c1.dom().contains(k));
        assert(c.dom().contains(k) && c[k] == c1[k]);
    }
    assert(lineage(c, p));
}

/// One generation more.
proof fn lemma_descends_step(
    c: Map<EffectId, Seq<EffectId>>,
    e: EffectId,
    child: EffectId,
    d: EffectId,
)
    requires
        c.contains_key(e),
        c[e].contains(child),
        d == child || descends(c, child, d),
    ensures
        descends(c, e, d),
{
    if d == child {
        let p = seq![e, child];
        assert(lineage(c, p));
    } else {
        let q = choose|q: Seq<EffectId>|
            q.len() >= 2 && q[0] == child && q.last() == d && #[trigger] lineage(c, q);
        let p = seq![e] + q;
        assert(p.last() == d);
        assert forall|i: int| 0 <= i < p.len() - 1 implies c.contains_key(#[trigger] p[i])
            && c[p[i]].contains(p[i + 1]) by {
            if i > 0 {
                assert(p[i] == q[i - 1] && p[i + 1] == q[i]);
            } else {
                assert(p[1] == q[0]);
            }
        }
        assert(lineage(c, p));
    }
}

/// What `taken` says of a map of children, what is left of it and what came out:
/// the left part is as it was, no effect that came out has children left, and the
/// children of whoever has none left came out too.
pub open spec fn taken(
    c: Map<EffectId, Seq<EffectId>>,
    left: Map<EffectId, Seq<EffectId>>,
    out: Seq<EffectId>,
) -> bool {
    &&& left.submap_of(c)
    &&& forall|d: EffectId| #[trigger] out.contains(d) ==> !left.contains_key(d)
    &&& forall|k: EffectId, d: EffectId|
        c.contains_key(k) && !left.contains_key(k) && #[trigger] c[k].contains(d) ==> out.contains(
            d,
        )
}

/// What `take_tree` does.
#[verifier::spinoff_prover]
proof fn lemma_take_tree(c: Map<EffectId, Seq<EffectId>>, e: EffectId)
    ensures
        ({
            let (left, out) = spread::take_tree(c, e);
            &&& taken(c, left, out)
            &&& !left.contains_key(e)
            &&& forall|k: EffectId|
                #[trigger] c.contains_key(k) && !left.contains_key(k) ==> k == e || out.contains(k)
            &&& forall|d: EffectId| #[trigger] out.contains(d) ==> descends(c, e, d)
        }),
    decreases c.dom().len(), 0nat,
{
    spread::lemma_effects_finite(c.dom());
    let (left, out) = spread::take_tree(c, e);
    if c.contains_key(e) {
        let c1 = c.remove(e);
        let list = c[e];
        lemma_take_trees(c1, list);
        assert(left.submap_of(c1) && c1.submap_of(c));
        assert(left.submap_of(c)) by {
            assert forall|k: EffectId| #[trigger] left.dom().contains(k) implies c.dom().contains(k)
                && left[k] == c[k] by {
                assert(c1.dom().contains(k));
            }
        }
        assert(!left.dom().contains(e)) by {
            assert(!c1.dom().contains(e));
        }
        assert forall|d: EffectId| #[trigger] out.contains(d) implies !left.contains_key(d) by {}
        assert forall|d: EffectId| #[trigger] out.contains(d) implies descends(c, e, d) by {
            assert(descends_from_any(c1, list, d));
            if list.contains(d) {
                lemma_descends_step(c, e, d, d);
            } else {
                let l = choose|l: EffectId| list.contains(l) && #[trigger] descends(c1, l, d);
                lemma_lineage_grows(c1, c, l, d);
                lemma_descends_step(c, e, l, d);
            }
        }
        assert forall|k: EffectId, d: EffectId|
            c.contains_key(k) && !left.contains_key(k) && #[trigger] c[k].contains(
                d,
            ) implies out.contains(d) by {
            if k != e {
                assert(c1.contains_key(k) && c1[k].contains(d));
            } else {
                assert(list.contains(d));
            }
        }
        assert(taken(c, left, out));
        assert forall|k: EffectId|
            #[trigger] c.contains_key(k) && !left.contains_key(k) implies k == e || out.contains(k) by {
            if k != e {
                assert(c1.contains_key(k));
            }
        }
    }
}

/// What `take_trees` does.
#[verifier::spinoff_prover]
proof fn lemma_take_trees(c: Map<EffectId, Seq<EffectId>>, list: Seq<EffectId>)
    ensures
        ({
            let (left, out) = spread::take_trees(c, list);
            &&& taken(c, left, out)
            &&& forall|d: EffectId| #[trigger] list.contains(d) ==> out.contains(d)
            &&& forall|k: EffectId|
                #[trigger] c.contains_key(k) && !left.contains_key(k) ==> out.contains(k)
            &&& forall|d: EffectId| #[trigger] out.contains(d) ==> descends_from_any(c, list, d)
        }),
    decreases c.dom().len(), list.len(),
{
    let (left, out) = spread::take_trees(c, list);
    if list.len() > 0 {
        let first = list[0];
        let rest = list.drop_first();
        let (c1, under) = spread::take_tree(c, first);
        let (c2, more) = spread::take_trees(c1, rest);
        facts::lemma_take_tree_shrinks(c, first);
        lemma_take_tree(c, first);
        lemma_take_trees(c1, rest);
        let mine = under.push(first);
        assert(out == mine + more && left == c2);
        assert forall|d: EffectId| #[trigger] out.contains(d) <==> under.contains(d) || d == first
            || more.contains(d) by {
            if under.contains(d) {
                let i = under.index_of(d);
                assert(out[i] == d);
            }
            if d == first {
                assert(out[under.len() as int] == d);
            }
            if more.contains(d) {
                let i = more.index_of(d);
                assert(out[mine.len() + i] == d);
            }
            if out.contains(d) {
                let i = out.index_of(d);
                if i < under.len() {
                    assert(under[i] == d);
                } else if i > under.len() {
                    assert(more[i - mine.len()] == d);
                }
            }
        }
        assert forall|d: EffectId| #[trigger] list.contains(d) <==> d == first || rest.contains(
            d,
        ) by {
            if list.contains(d) {
                let i = list.index_of(d);
                if i > 0 {
                    assert(rest[i - 1] == d);
                }
            }
            if rest.contains(d) {
                let i = rest.index_of(d);
                assert(list[i + 1] == d);
            }
        }
        assert(left.submap_of(c));
        assert forall|d: EffectId| #[trigger] out.contains(d) implies !left.contains_key(d) by {
            if under.contains(d) || d == first {
                assert(!c1.contains_key(d));
                assert(!c2.dom().contains(d));
            }
        }
        assert forall|k: EffectId| #[trigger] c.contains_key(k) && !left.contains_key(k) implies out.contains(k) by {
            if c1.contains_key(k) {
                assert(more.contains(k));
            } else if k == first {
                assert(k == first);
            } else {
                assert(under.contains(k));
            }
        }
        assert forall|k: EffectId, d: EffectId|
            c.contains_key(k) && !left.contains_key(k) && #[trigger] c[k].contains(
                d,
            ) implies out.contains(d) by {
            if c1.contains_key(k) {
                assert(c1.dom().contains(k));
                assert(c1[k].contains(d));
            }
        }
        assert forall|d: EffectId| #[trigger] out.contains(d) implies descends_from_any(
            c,
            list,
            d,
        ) by {
            if under.contains(d) {
                assert(list.contains(first) && descends(c, first, d));
            } else if d == first {
                assert(list.contains(d));
            } else {
                assert(descends_from_any(c1, rest, d));
                if !rest.contains(d) {
                    let l = choose|l: EffectId| rest.contains(l) && #[trigger] descends(c1, l, d);
                    lemma_lineage_grows(c1, c, l, d);
                    assert(list.contains(l));
                }
            }
        }
    }
}

/// The effects that are destroyed with `e` are exactly those that descend from it.
pub proof fn law_descendants(s: State, e: EffectId, d: EffectId)
    ensures
        s.descendants(e).contains(d) <==> descends(s.children, e, d),
{
    let c = s.children;
    let (left, out) = spread::take_tree(c, e);
    lemma_take_tree(c, e);
    if descends(c, e, d) {
        let p = choose|p: Seq<EffectId>|
            p.len() >= 2 && p[0] == e && p.last() == d && #[trigger] lineage(c, p);
        lemma_line_taken(c, e, p, p.len() - 1);
    }
}

/// No effect descends from itself.
pub open spec fn no_loops(c: Map<EffectId, Seq<EffectId>>) -> bool {
    forall|d: EffectId| !#[trigger] descends(c, d, d)
}

/// `x` is in `list` before the place `i`.
pub open spec fn is_before(list: Seq<EffectId>, i: int, x: EffectId) -> bool {
    exists|j: int| 0 <= j < i && #[trigger] list[j] == x
}

/// Whoever is in `list` comes after its children.
pub open spec fn children_first(c: Map<EffectId, Seq<EffectId>>, list: Seq<EffectId>) -> bool {
    forall|i: int, x: EffectId|
        0 <= i < list.len() && c.contains_key(#[trigger] list[i]) && #[trigger] c[list[i]].contains(
            x,
        ) ==> is_before(list, i, x)
}

/// A part of a map without loops has none.
proof fn lemma_no_loops(c1: Map<EffectId, Seq<EffectId>>, c: Map<EffectId, Seq<EffectId>>)
    requires
        c1.submap_of(c),
        no_loops(c),
    ensures
        no_loops(c1),
{
    assert forall|d: EffectId| !#[trigger] descends(c1, d, d) by {
        if descends(c1, d, d) {
            lemma_lineage_grows(c1, c, d, d);
        }
    }
}

/// The tree under an effect comes out of the map children first.
proof fn lemma_tree_children_first(c: Map<EffectId, Seq<EffectId>>, e: EffectId)
    requires
        no_loops(c),
    ensures
        children_first(c, spread::take_tree(c, e).1),
    decreases c.dom().len(), 0nat,
{
    spread::lemma_effects_finite(c.dom());
    let out = spread::take_tree(c, e).1;
    if c.contains_key(e) {
        let c1 = c.remove(e);
        lemma_no_loops(c1, c);
        lemma_trees_children_first(c1, c[e]);
        lemma_take_tree(c, e);
        assert forall|i: int, x: EffectId|
            0 <= i < out.len() && c.contains_key(#[trigger] out[i]) && #[trigger] c[out[i]].contains(
                x,
            ) implies is_before(out, i, x) by {
            assert(out.contains(out[i]));
            assert(descends(c, e, out[i]));
            assert(out[i] != e);
            assert(c1.contains_key(out[i]) && c1[out[i]].contains(x));
        }
    }
}

/// So do the trees of a list of effects.
proof fn lemma_trees_children_first(c: Map<EffectId, Seq<EffectId>>, list: Seq<EffectId>)
    requires
        no_loops(c),
    ensures
        children_first(c, spread::take_trees(c, list).1),
    decreases c.dom().len(), list.len(),
{
    let out = spread::take_trees(c, list).1;
    if list.len() > 0 {
        let first = list[0];
        let rest = list.drop_first();
        let (c1, under) = spread::take_tree(c, first);
        let more = spread::take_trees(c1, rest).1;
        let mine = under.push(first);
        facts::lemma_take_tree_shrinks(c, first);
        lemma_take_tree(c, first);
        lemma_no_loops(c1, c);
        lemma_tree_children_first(c, first);
        lemma_trees_children_first(c1, rest);
        assert(out == mine + more);
        assert forall|i: int, x: EffectId|
            0 <= i < out.len() && c.contains_key(#[trigger] out[i]) && #[trigger] c[out[i]].contains(
                x,
            ) implies is_before(out, i, x) by {
            let d = out[i];
            if i < under.len() {
                assert(under[i] == d);
                assert(is_before(under, i, x));
                let j = choose|j: int| 0 <= j < i && #[trigger] under[j] == x;
                assert(out[j] == x);
            } else if i > under.len() && c1.contains_key(d) {
                assert(c1.dom().contains(d));
                assert(more[i - mine.len()] == d);
                assert(c1[d].contains(x));
                assert(is_before(more, i - mine.len(), x));
                let j = choose|j: int| 0 <= j < i - mine.len() && #[trigger] more[j] == x;
                assert(out[mine.len() + j] == x);
            } else {
                assert(!c1.contains_key(d));
                assert(under.contains(x));
                let j = under.index_of(x);
                assert(out[j] == x);
            }
        }
    }
}

/// Children are destroyed before their parents.
pub proof fn law_children_are_destroyed_first(s: State, e: EffectId)
    requires
        no_loops(s.children),
    ensures
        children_first(s.children, s.descendants(e)),
{
    lemma_tree_children_first(s.children, e);
}

/// Each effect on a line from `e` comes out of the map.
proof fn lemma_line_taken(c: Map<EffectId, Seq<EffectId>>, e: EffectId, p: Seq<EffectId>, i: int)
    requires
        p.len() >= 2,
        p[0] == e,
        lineage(c, p),
        1 <= i < p.len(),
    ensures
        spread::take_tree(c, e).1.contains(p[i]),
    decreases i,
{
    lemma_take_tree(c, e);
    if i > 1 {
        lemma_line_taken(c, e, p, i - 1);
    }
    assert(c.contains_key(p[i - 1]) && c[p[i - 1]].contains(p[i]));
}

// ---------------------------------------------------------------------------
// Destruction
// ---------------------------------------------------------------------------

/// `t` is `s` without the effects of `list`.
pub open spec fn without_effects(s: State, list: Seq<EffectId>, t: State) -> bool {
    // the arena
    &&& t.effects.len() == s.effects.len()
    &&& forall|e: EffectId| #[trigger]
        t.has_effect(e) <==> s.has_effect(e) && !list.contains(e)
    &&& forall|e: EffectId| #[trigger] t.has_effect(e) ==> t.effect(e) == s.effect(e)
    // the hierarchy
    &&& forall|k: EffectId| #[trigger]
        t.parents.contains_key(k) <==> s.parents.contains_key(k) && !list.contains(k)
    &&& forall|k: EffectId| #[trigger] t.parents.contains_key(k) ==> t.parents[k] == s.parents[k]
    &&& forall|k: EffectId| #[trigger]
        t.children.contains_key(k) <==> s.children.contains_key(k) && !list.contains(k)
    &&& forall|k: EffectId| #[trigger] t.children.contains_key(k) ==> t.children[k] == s.children[k]
    // the pending set
    &&& forall|e: EffectId| #[trigger]
        t.pending.contains(e) <==> s.pending.contains(e) && !list.contains(e)
    // the subscriptions
    &&& t.signals.len() == s.signals.len()
    &&& forall|g: SignalId| #[trigger] t.has_signal(g) <==> s.has_signal(g)
    &&& forall|g: SignalId, e: EffectId| #[trigger]
        t.subscribers(g).contains(e) ==> s.subscribers(g).contains(e)
    &&& forall|g: SignalId, e: EffectId|
        s.subscribers(g).contains(e) && !list.contains(e) ==> #[trigger] t.subscribers(g).contains(
            e,
        )
    // the writers
    &&& forall|g: SignalId, e: EffectId| #[trigger]
        t.writers_of(g).contains(e) ==> s.writers_of(g).contains(e)
    &&& forall|g: SignalId, e: EffectId|
        s.writers_of(g).contains(e) && !list.contains(e) ==> #[trigger] t.writers_of(g).contains(e)
    &&& forall|g: SignalId, e: EffectId|
        list.contains(e) && #[trigger] s.outputs(e).contains(g) ==> !t.writers_of(g).contains(e)
    // all else
    &&& t.signal_gens == s.signal_gens
    &&& t.active == s.active
    &&& t.attached == s.attached
    &&& t.notice == s.notice
    &&& t.local == s.local
}

/// Unsubscribing one effect touches no other subscription.
pub proof fn lemma_unsubscribe(s: State, d: EffectId)
    ensures
        s.unsubscribe(d).signals.len() == s.signals.len(),
        forall|g: SignalId| #[trigger] s.unsubscribe(d).has_signal(g) <==> s.has_signal(g),
        forall|g: SignalId, e: EffectId| #[trigger]
            s.unsubscribe(d).subscribers(g).contains(e) <==> s.subscribers(g).contains(e) && !(e
                == d && s.sources(d).contains(g)),
        s.wf() ==> s.unsubscribe(d).wf(),
{
    let t = s.unsubscribe(d);
    let src = s.sources(d);
    assert forall|g: SignalId, e: EffectId| #[trigger]
        t.subscribers(g).contains(e) <==> s.subscribers(g).contains(e) && !(e == d
            && src.contains(g)) by {
        facts::lemma_without_members(s.subscribers(g), d);
        if s.has_signal(g) {
            facts::lemma_signal_hit(src, s.signal_gens, g);
            assert(t.has_signal(g));
        }
    }
    if s.wf() {
        assert forall|i: int| 0 <= i < t.signals.len() implies model::validity::signal_slot_wf(
            #[trigger] t.signals[i],
        ) by {
            assert(model::validity::signal_slot_wf(s.signals[i]));
            if s.signals[i] is Some {
                facts::lemma_without_distinct(s.signals[i]->0, d);
            }
        }
    }
}

/// Unregistering one effect touches no other writer.
pub proof fn lemma_unregistered(s: State, outputs: Seq<SignalId>, d: EffectId)
    ensures
        ({
            let t = State { writers: graph::unwritten(s.writers, outputs, d), ..s };
            &&& forall|g: SignalId, e: EffectId| #[trigger]
                t.writers_of(g).contains(e) <==> s.writers_of(g).contains(e) && !(e == d
                    && outputs.contains(g))
            &&& s.wf() ==> t.wf()
        }),
{
    let t = State { writers: graph::unwritten(s.writers, outputs, d), ..s };
    assert forall|g: SignalId, e: EffectId| #[trigger] t.writers_of(g).contains(e)
        <==> s.writers_of(g).contains(e) && !(e == d && outputs.contains(g)) by {
        if s.writers.contains_key(g) {
            let rest = model::without(s.writers[g], d);
            facts::lemma_without_members(s.writers[g], d);
            if outputs.contains(g) && rest.len() == 0 {
                assert(!rest.contains(e));
            }
        }
    }
    if s.wf() {
        assert forall|g: SignalId| #[trigger] t.writers.contains_key(g) implies t.writers[g].no_duplicates() by {
            assert(s.writers.contains_key(g));
            facts::lemma_without_distinct(s.writers[g], d);
        }
    }
}

/// One effect is destroyed.
#[verifier::spinoff_prover]
proof fn lemma_destroy_one(s: State, d: EffectId)
    requires
        s.wf(),
    ensures
        without_effects(s, seq![d], s.destroy_one(d)),
        s.destroy_one(d).wf(),
        s.anchored() ==> s.destroy_one(d).anchored(),
{
    let list = seq![d];
    let idle = s.pending_remove(d);
    let off = idle.unsubscribe(d);
    let apart = off.unregister(d);
    let t = s.destroy_one(d);
    facts::lemma_swap_removed(s.pending, d);
    assert(idle.wf());
    lemma_unsubscribe(idle, d);
    lemma_unregistered(off, off.outputs(d), d);
    assert(off.outputs(d) == s.outputs(d));
    assert forall|g: SignalId| #[trigger] t.writers_of(g) == apart.writers_of(g) by {}
    assert forall|g: SignalId| #[trigger] s.writers_of(g) == off.writers_of(g) by {}
    assert forall|g: SignalId| #[trigger] apart.subscribers(g) == off.subscribers(g) by {}
    assert forall|g: SignalId| #[trigger] apart.has_signal(g) == off.has_signal(g) by {}
    assert forall|e: EffectId| #[trigger] list.contains(e) <==> e == d by {
        if e == d {
            assert(list[0] == e);
        }
    }
    assert(apart.wf());
    assert(t.wf());
    assert forall|g: SignalId| s.subscribers(g) == idle.subscribers(g) by {}
    assert forall|g: SignalId| #[trigger] t.subscribers(g) == apart.subscribers(g) by {}
    assert forall|g: SignalId| #[trigger] t.has_signal(g) == apart.has_signal(g) by {}
    assert(idle.sources(d) == s.sources(d));
    if s.anchored() {
        assert forall|g: SignalId, e: EffectId| #[trigger]
            t.subscribers(g).contains(e) implies t.has_source(e, g) by {
            assert(off.subscribers(g).contains(e));
            assert(idle.subscribers(g).contains(e));
            assert(s.subscribers(g).contains(e));
            assert(s.has_source(e, g));
            if e == d {
                facts::lemma_reads_source(s.effect(d).signals, g);
            }
        }
    }
}

/// Effects are destroyed one after the other.
#[verifier::spinoff_prover]
proof fn lemma_destroy_list(s: State, list: Seq<EffectId>)
    requires
        s.wf(),
    ensures
        without_effects(s, list, s.destroy_list(list)),
        s.destroy_list(list).wf(),
        s.anchored() ==> s.destroy_list(list).anchored(),
    decreases list.len(),
{
    if list.len() > 0 {
        let d = list[0];
        let one = s.destroy_one(d);
        let rest = list.drop_first();
        lemma_destroy_one(s, d);
        lemma_destroy_list(one, rest);
        assert forall|e: EffectId| #[trigger] list.contains(e) <==> seq![d].contains(e)
            || rest.contains(e) by {
            if list.contains(e) {
                let i = list.index_of(e);
                if i > 0 {
                    assert(rest[i - 1] == e);
                } else {
                    assert(seq![d][0] == e);
                }
            }
            if rest.contains(e) {
                let i = rest.index_of(e);
                assert(list[i + 1] == e);
            }
            if seq![d].contains(e) {
                assert(list[0] == e);
            }
        }
        let t = s.destroy_list(list);
        assert forall|e: EffectId| #[trigger] t.has_effect(e) implies t.effect(e) == s.effect(e) by {
            assert(one.has_effect(e));
        }
        assert forall|k: EffectId| #[trigger] t.parents.contains_key(k) implies t.parents[k]
            == s.parents[k] by {
            assert(one.parents.contains_key(k));
        }
        assert forall|k: EffectId| #[trigger] t.children.contains_key(k) implies t.children[k]
            == s.children[k] by {
            assert(one.children.contains_key(k));
        }
        assert forall|g: SignalId, e: EffectId| #[trigger]
            t.subscribers(g).contains(e) implies s.subscribers(g).contains(e) by {
            assert(one.subscribers(g).contains(e));
        }
        assert forall|g: SignalId, e: EffectId|
            s.subscribers(g).contains(e) && !list.contains(e) implies #[trigger] t.subscribers(
            g,
        ).contains(e) by {
            assert(one.subscribers(g).contains(e));
        }
        assert forall|g: SignalId, e: EffectId| #[trigger]
            t.writers_of(g).contains(e) implies s.writers_of(g).contains(e) by {
            assert(one.writers_of(g).contains(e));
        }
        assert forall|g: SignalId, e: EffectId|
            s.writers_of(g).contains(e) && !list.contains(e) implies #[trigger] t.writers_of(
            g,
        ).contains(e) by {
            assert(one.writers_of(g).contains(e));
        }
        assert forall|g: SignalId, e: EffectId|
            list.contains(e) && #[trigger] s.outputs(e).contains(g) implies !t.writers_of(
            g,
        ).contains(e) by {
            if t.writers_of(g).contains(e) {
                assert(one.writers_of(g).contains(e));
                if seq![d].contains(e) {
                    assert(!one.writers_of(g).contains(e));
                } else {
                    if s.has_effect(e) {
                        assert(one.has_effect(e));
                    } else {
                        crate::lists::lemma_no_links();
                    }
                    assert(one.outputs(e) == s.outputs(e));
                }
            }
        }
    }
}

/// When the children of `e` are destroyed, exactly the effects that descend from it
/// are gone: from the arena, from the hierarchy, from the pending set, and from the
/// subscribers of the signals they read. Every other effect keeps its metadata, its
/// place in the hierarchy, its subscriptions, and stays pending if it was; it stays a
/// writer of what it writes, and those that are gone do not. What the thread has of its own
/// is not touched.
#[verifier::spinoff_prover]
pub proof fn law_destroy_children(s: State, e: EffectId)
    requires
        s.wf(),
    ensures
        ({
            let t = s.destroy_children(e);
            let gone = |d: EffectId| descends(s.children, e, d);
            &&& t.effects.len() == s.effects.len()
            &&& forall|d: EffectId| #[trigger] t.has_effect(d) <==> s.has_effect(d) && !gone(d)
            &&& forall|d: EffectId| #[trigger] t.has_effect(d) ==> t.effect(d) == s.effect(d)
            &&& forall|k: EffectId| #[trigger]
                t.parents.contains_key(k) <==> s.parents.contains_key(k) && !gone(k)
            &&& forall|k: EffectId| #[trigger]
                t.parents.contains_key(k) ==> t.parents[k] == s.parents[k]
            &&& forall|k: EffectId| #[trigger]
                t.children.contains_key(k) <==> s.children.contains_key(k) && k != e && !gone(
                    k,
                )
            &&& forall|k: EffectId| #[trigger]
                t.children.contains_key(k) ==> t.children[k] == s.children[k]
            &&& forall|d: EffectId| #[trigger]
                t.pending.contains(d) <==> s.pending.contains(d) && !gone(d)
            &&& forall|g: SignalId| #[trigger] t.has_signal(g) <==> s.has_signal(g)
            &&& t.signals.len() == s.signals.len()
            &&& forall|g: SignalId, d: EffectId| #[trigger]
                t.subscribers(g).contains(d) ==> s.subscribers(g).contains(d)
            &&& forall|g: SignalId, d: EffectId|
                s.subscribers(g).contains(d) && !gone(d) ==> #[trigger] t.subscribers(g).contains(d)
            &&& s.anchored() ==> forall|g: SignalId, d: EffectId|
                gone(d) ==> !#[trigger] t.subscribers(g).contains(d)
            &&& forall|g: SignalId, d: EffectId| #[trigger]
                t.writers_of(g).contains(d) ==> s.writers_of(g).contains(d)
            &&& forall|g: SignalId, d: EffectId|
                s.writers_of(g).contains(d) && !gone(d) ==> #[trigger] t.writers_of(g).contains(d)
            &&& forall|g: SignalId, d: EffectId|
                gone(d) && #[trigger] s.outputs(d).contains(g) ==> !t.writers_of(g).contains(d)
            &&& t.signal_gens == s.signal_gens
            &&& t.active == s.active
            &&& t.attached == s.attached
            &&& t.notice == s.notice
            &&& t.local == s.local
            &&& t.wf()
            &&& s.anchored() ==> t.anchored()
        }),
{
    let c = s.children;
    let (left, out) = spread::take_tree(c, e);
    let cut = State { children: left, ..s };
    let t = s.destroy_children(e);
    lemma_take_tree(c, e);
    assert forall|d: EffectId| #[trigger] out.contains(d) <==> descends(c, e, d) by {
        law_descendants(s, e, d);
    }
    assert(cut.wf());
    assert forall|g: SignalId| cut.subscribers(g) == s.subscribers(g) && cut.has_signal(g)
        == s.has_signal(g) by {}
    assert forall|d: EffectId| cut.has_effect(d) == s.has_effect(d) by {}
    assert forall|g: SignalId| #[trigger] cut.writers_of(g) == s.writers_of(g) by {}
    assert forall|d: EffectId| #[trigger] cut.outputs(d) == s.outputs(d) by {}
    if s.anchored() {
        assert forall|g: SignalId, d: EffectId| #[trigger]
            cut.subscribers(g).contains(d) implies cut.has_source(d, g) by {
            assert(s.subscribers(g).contains(d));
        }
        assert(cut.anchored());
    }
    lemma_destroy_list(cut, out);
    assert(t == cut.destroy_list(out));
    assert forall|k: EffectId| #[trigger] t.children.contains_key(k) <==> c.contains_key(k) && k != e
        && !descends(c, e, k) by {
        assert(out.contains(k) <==> descends(c, e, k));
        if left.contains_key(k) {
            assert(left.dom().contains(k));
            assert(c.dom().contains(k));
        }
    }
    assert forall|k: EffectId| #[trigger] t.children.contains_key(k) implies t.children[k] == c[k] by {
        assert(left.dom().contains(k));
    }
    assert forall|g: SignalId, d: EffectId| #[trigger]
        t.writers_of(g).contains(d) implies s.writers_of(g).contains(d) by {
        assert(cut.writers_of(g).contains(d));
    }
    assert forall|g: SignalId, d: EffectId|
        s.writers_of(g).contains(d) && !descends(c, e, d) implies #[trigger] t.writers_of(
        g,
    ).contains(d) by {
        assert(cut.writers_of(g).contains(d));
        assert(!out.contains(d));
    }
    assert forall|g: SignalId, d: EffectId|
        descends(c, e, d) && #[trigger] s.outputs(d).contains(g) implies !t.writers_of(
        g,
    ).contains(d) by {
        assert(out.contains(d));
        assert(cut.outputs(d).contains(g));
    }
    if s.anchored() {
        assert forall|g: SignalId, d: EffectId| descends(c, e, d) implies !#[trigger] t.subscribers(
            g,
        ).contains(d) by {
            if t.subscribers(g).contains(d) {
                assert(t.has_source(d, g));
                assert(t.has_effect(d));
            }
        }
    }
}

/// A child does not outlive the invalidation of its parent: when an effect that was
/// not Dirty is marked, its children are gone at once.
pub proof fn law_children_die_with_parent(s: State, parent: EffectId, child: EffectId)
    requires
        s.wf(),
        s.can_mark(parent),
        s.children_of(parent).contains(child),
        child != parent,
    ensures
        !s.mark_pending(parent).has_effect(child),
        !s.mark_pending(parent).pending.contains(child),
        s.anchored() ==> forall|g: SignalId|
            !#[trigger] s.mark_pending(parent).subscribers(g).contains(child),
        !s.mark_pending(parent).children.contains_key(parent),
{
    let dirty = s.set_state(parent, ReactiveState::Dirty);
    lemma_set_state(s, parent, ReactiveState::Dirty);
    law_destroy_children(dirty, parent);
    lemma_descends_step(s.children, parent, child, child);
    let cut = dirty.destroy_children(parent);
    facts::lemma_insert_once(cut.pending, parent);
    let t = s.mark_pending(parent);
    assert(t == cut.pending_insert(parent));
    assert(t.has_effect(child) == cut.has_effect(child));
    assert forall|g: SignalId| #[trigger] t.subscribers(g) == cut.subscribers(g) by {}
}

/// The state of an effect says nothing of its links, nor of who is subscribed.
pub proof fn lemma_set_state(
    s: State,
    e: EffectId,
    to: ReactiveState,
)
    ensures
        s.wf() ==> s.set_state(e, to).wf(),
        s.anchored() ==> s.set_state(e, to).anchored(),
        forall|d: EffectId| #[trigger] s.set_state(e, to).has_effect(d) <==> s.has_effect(d),
        forall|d: EffectId| #[trigger] s.set_state(e, to).links(d) == s.links(d),
        forall|d: EffectId| #[trigger] s.set_state(e, to).outputs(d) == s.outputs(d),
        forall|d: EffectId| d != e ==> #[trigger] s.set_state(e, to).state_of(d) == s.state_of(d),
        s.has_effect(e) ==> s.set_state(e, to).state_of(e) == to,
{
    let t = s.set_state(e, to);
    if s.wf() {
        assert forall|i: int| 0 <= i < t.effects.len() implies model::validity::effect_slot_wf(
            #[trigger] t.effects[i],
        ) by {
            assert(model::validity::effect_slot_wf(s.effects[i]));
        }
    }
    if s.anchored() {
        assert forall|g: SignalId, d: EffectId| #[trigger]
            t.subscribers(g).contains(d) implies t.has_source(d, g) by {
            assert(s.subscribers(g).contains(d));
        }
    }
}

} // verus!
