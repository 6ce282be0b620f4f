//! How a change spreads: who becomes Dirty, who becomes Check, and who is left alone.
use vstd::prelude::*;

use crate::arena::effect_arena::EffectId;
use crate::arena::effect_arena::ReactiveState;
use crate::arena::signal_arena::SignalId;
use crate::laws::tree;
use crate::model;
use crate::model::facts;
use crate::model::graph;
use crate::model::spread;
use crate::model::EffectModel;
use crate::model::State;

verus! {

// ---------------------------------------------------------------------------
// Dependence
// ---------------------------------------------------------------------------

/// Whoever reads something of `outputs` is among their readers, and nobody else.
proof fn lemma_readers(s: State, outputs: Seq<SignalId>, x: EffectId)
    ensures
        facts::readers(s, outputs).contains(x) <==> exists|g: SignalId|
            outputs.contains(g) && #[trigger] s.subscribers(g).contains(x),
    decreases outputs.len(),
{
    if outputs.len() == 0 {
        facts::lemma_no_successors(s);
        assert(outputs =~= Seq::empty());
    } else {
        let front = outputs.drop_last();
        let last = outputs.last();
        assert(outputs =~= front.push(last));
        lemma_readers(s, front, x);
        facts::lemma_readers_push(s, front, last);
        let a = facts::readers(s, front);
        let b = s.subscribers(last);
        if (a + b).contains(x) {
            let i = (a + b).index_of(x);
            if i < a.len() {
                assert(a[i] == x);
                let g = choose|g: SignalId|
                    front.contains(g) && #[trigger] s.subscribers(g).contains(x);
                let j = front.index_of(g);
                assert(outputs[j] == g);
                assert(outputs.contains(g) && s.subscribers(g).contains(x));
            } else {
                assert(b[i - a.len()] == x);
                assert(outputs[outputs.len() - 1] == last);
                assert(outputs.contains(last) && s.subscribers(last).contains(x));
            }
        }
        if exists|g: SignalId| outputs.contains(g) && #[trigger] s.subscribers(g).contains(x) {
            let g = choose|g: SignalId|
                outputs.contains(g) && #[trigger] s.subscribers(g).contains(x);
            let j = outputs.index_of(g);
            if j < front.len() {
                assert(front[j] == g);
                assert(front.contains(g) && s.subscribers(g).contains(x));
                let i = a.index_of(x);
                assert((a + b)[i] == x);
            } else {
                assert(g == last);
                let i = b.index_of(x);
                assert((a + b)[a.len() + i] == x);
            }
        }
    }
}

/// An effect depends on another directly if it reads a signal that the other writes.
pub proof fn law_successors(s: State, e: EffectId, x: EffectId)
    ensures
        s.successors(e).contains(x) <==> exists|g: SignalId|
            s.outputs(e).contains(g) && #[trigger] s.subscribers(g).contains(x),
{
    lemma_readers(s, s.outputs(e), x);
}

/// Each effect of `p` depends directly on the one before it.
pub open spec fn chain(s: State, p: Seq<EffectId>) -> bool {
    forall|i: int| 0 <= i < p.len() - 1 ==> s.successors(#[trigger] p[i]).contains(p[i + 1])
}

/// Each effect of `p` is live and Clean.
pub open spec fn all_clean(s: State, p: Seq<EffectId>) -> bool {
    forall|i: int|
        0 <= i < p.len() ==> s.has_effect(#[trigger] p[i]) && s.state_of(p[i]) is Clean
}

/// A chain of Clean effects leads from one of `list` to `e`.
pub open spec fn reached_clean(s: State, list: Seq<EffectId>, e: EffectId) -> bool {
    exists|p: Seq<EffectId>|
        {
            &&& p.len() > 0
            &&& list.contains(p[0])
            &&& p.last() == e
            &&& #[trigger] chain(s, p)
            &&& all_clean(s, p)
        }
}

/// `e` was Clean in `s` and is not in `t`.
pub open spec fn newly_marked(s: State, t: State, e: EffectId) -> bool {
    s.has_effect(e) && s.state_of(e) is Clean && t.state_of(e) !is Clean
}

/// Whoever depends on an effect that was newly marked is not Clean.
pub open spec fn closed(s: State, t: State) -> bool {
    forall|a: EffectId, b: EffectId|
        newly_marked(s, t, a) && #[trigger] s.successors(a).contains(b) && s.has_effect(b)
            ==> t.state_of(b) !is Clean
}

/// Marking keeps who depends on whom, and what is not Clean stays so.
proof fn lemma_checked_same(s: State, t: State)
    requires
        facts::checked_from(s, t),
    ensures
        forall|e: EffectId| #[trigger] t.has_effect(e) == s.has_effect(e),
        forall|e: EffectId| #[trigger] t.successors(e) == s.successors(e),
        forall|e: EffectId|
            s.state_of(e) !is Clean ==> #[trigger] t.state_of(e) == s.state_of(e),
        forall|e: EffectId|
            s.state_of(e) is Clean ==> #[trigger] t.state_of(e) is Clean || t.state_of(e) is Check,
{
    assert forall|e: EffectId| #[trigger] t.has_effect(e) == s.has_effect(e) by {
        facts::lemma_checked_links(s, t, e);
    }
    assert forall|e: EffectId| #[trigger] t.successors(e) == s.successors(e) by {
        facts::lemma_checked_links(s, t, e);
        facts::lemma_same_successors(s, t, e);
    }
    assert forall|e: EffectId| s.state_of(e) !is Clean implies #[trigger] t.state_of(e)
        == s.state_of(e) by {
        facts::lemma_checked_links(s, t, e);
        assert(facts::slot_checked(s.effects[e.0 as int], t.effects[e.0 as int]));
    }
    assert forall|e: EffectId| s.state_of(e) is Clean implies #[trigger] t.state_of(e) is Clean
        || t.state_of(e) is Check by {
        facts::lemma_checked_links(s, t, e);
        if s.has_effect(e) {
            assert(facts::slot_checked(s.effects[e.0 as int], t.effects[e.0 as int]));
        }
    }
}

/// Who is marked with `e`, and that the marking goes on to whoever depends on it.
#[verifier::spinoff_prover]
proof fn lemma_check_effect_marks(s: State, e: EffectId)
    ensures
        closed(s, s.check_effect(e)),
        s.has_effect(e) ==> s.check_effect(e).state_of(e) !is Clean,
        forall|x: EffectId| #[trigger]
            newly_marked(s, s.check_effect(e), x) ==> reached_clean(s, seq![e], x),
    decreases spread::clean_count(s.effects), 0nat,
{
    let t = s.check_effect(e);
    facts::lemma_check_effect(s, e);
    lemma_checked_same(s, t);
    if s.state_of(e) is Clean && s.has_effect(e) {
        let marked = s.mark_check_one(e);
        let next = s.successors(e);
        spread::lemma_clean_count_update(
            s.effects,
            e.0 as int,
            Some(EffectModel { state: ReactiveState::Check, ..s.effect(e) }),
        );
        assert(facts::checked_from(s, marked));
        lemma_checked_same(s, marked);
        facts::lemma_check_list(marked, next);
        lemma_checked_same(marked, t);
        lemma_check_list_marks(marked, next);
        assert(marked.state_of(e) is Check);
        assert forall|a: EffectId, b: EffectId|
            newly_marked(s, t, a) && #[trigger] s.successors(a).contains(b) && s.has_effect(
                b,
            ) implies t.state_of(b) !is Clean by {
            if a == e {
                assert(next.contains(b));
                assert(marked.has_effect(b));
            } else {
                assert(marked.state_of(a) is Clean);
                assert(newly_marked(marked, t, a));
                assert(marked.successors(a).contains(b));
            }
        }
        assert forall|x: EffectId| #[trigger] newly_marked(s, t, x) implies reached_clean(
            s,
            seq![e],
            x,
        ) by {
            if x == e {
                let p = seq![e];
                assert(p[0] == e);
                assert(chain(s, p) && all_clean(s, p));
                assert(seq![e].contains(p[0]));
            } else {
                assert(newly_marked(marked, t, x));
                let q = choose|p: Seq<EffectId>|
                    {
                        &&& p.len() > 0
                        &&& next.contains(p[0])
                        &&& p.last() == x
                        &&& #[trigger] chain(marked, p)
                        &&& all_clean(marked, p)
                    };
                let p = seq![e] + q;
                assert forall|i: int| 0 <= i < p.len() - 1 implies s.successors(
                    #[trigger] p[i],
                ).contains(p[i + 1]) by {
                    if i > 0 {
                        assert(p[i] == q[i - 1] && p[i + 1] == q[i]);
                        assert(marked.successors(q[i - 1]).contains(q[i - 1 + 1]));
                    } else {
                        assert(p[1] == q[0]);
                    }
                }
                assert(chain(s, p));
                assert forall|i: int| 0 <= i < p.len() implies s.has_effect(#[trigger] p[i])
                    && s.state_of(p[i]) is Clean by {
                    if i > 0 {
                        assert(p[i] == q[i - 1]);
                        assert(marked.has_effect(q[i - 1]));
                        assert(marked.state_of(q[i - 1]) is Clean);
                    }
                }
                assert(p[0] == e && p.last() == x);
                assert(seq![e].contains(p[0])) by {
                    assert(seq![e][0] == p[0]);
                }
            }
        }
    } else {
        assert forall|x: EffectId| #[trigger] newly_marked(s, t, x) implies reached_clean(
            s,
            seq![e],
            x,
        ) by {
            if s.state_of(e) is Clean {
                assert(t.effects =~= s.effects);
            }
        }
        assert forall|a: EffectId, b: EffectId|
            newly_marked(s, t, a) && #[trigger] s.successors(a).contains(b) && s.has_effect(
                b,
            ) implies t.state_of(b) !is Clean by {
            if s.state_of(e) is Clean {
                assert(t.effects =~= s.effects);
            }
        }
    }
}

/// As `lemma_check_effect_marks`, for a list.
#[verifier::spinoff_prover]
proof fn lemma_check_list_marks(s: State, list: Seq<EffectId>)
    ensures
        closed(s, s.check_list(list)),
        forall|e: EffectId| #[trigger]
            list.contains(e) && s.has_effect(e) ==> s.check_list(list).state_of(e) !is Clean,
        forall|x: EffectId| #[trigger]
            newly_marked(s, s.check_list(list), x) ==> reached_clean(s, list, x),
    decreases spread::clean_count(s.effects), list.len(),
{
    let t = s.check_list(list);
    if list.len() > 0 {
        let first = list[0];
        let rest = list.drop_first();
        let next = s.check_effect(first);
        facts::lemma_check_effect(s, first);
        facts::lemma_check_list_step(s, list);
        facts::lemma_check_list(next, rest);
        facts::lemma_check_list(s, list);
        lemma_checked_same(s, next);
        lemma_checked_same(next, t);
        lemma_check_effect_marks(s, first);
        lemma_check_list_marks(next, rest);
        assert forall|e: EffectId| #[trigger] list.contains(e) && s.has_effect(
            e,
        ) implies t.state_of(e) !is Clean by {
            let i = list.index_of(e);
            if i > 0 {
                assert(rest[i - 1] == e);
                assert(rest.contains(e) && next.has_effect(e));
            }
        }
        assert forall|a: EffectId, b: EffectId|
            newly_marked(s, t, a) && #[trigger] s.successors(a).contains(b) && s.has_effect(
                b,
            ) implies t.state_of(b) !is Clean by {
            if next.state_of(a) is Clean {
                assert(newly_marked(next, t, a));
                assert(next.successors(a).contains(b) && next.has_effect(b));
            } else {
                assert(newly_marked(s, next, a));
                assert(next.state_of(b) !is Clean);
            }
        }
        assert forall|x: EffectId| #[trigger] newly_marked(s, t, x) implies reached_clean(
            s,
            list,
            x,
        ) by {
            if next.state_of(x) is Clean {
                assert(newly_marked(next, t, x));
                let p = choose|p: Seq<EffectId>|
                    {
                        &&& p.len() > 0
                        &&& rest.contains(p[0])
                        &&& p.last() == x
                        &&& #[trigger] chain(next, p)
                        &&& all_clean(next, p)
                    };
                assert forall|i: int| 0 <= i < p.len() - 1 implies s.successors(
                    #[trigger] p[i],
                ).contains(p[i + 1]) by {
                    assert(next.successors(p[i]).contains(p[i + 1]));
                }
                assert(chain(s, p));
                assert forall|i: int| 0 <= i < p.len() implies s.has_effect(#[trigger] p[i])
                    && s.state_of(p[i]) is Clean by {
                    assert(next.has_effect(p[i]) && next.state_of(p[i]) is Clean);
                }
                let j = rest.index_of(p[0]);
                assert(list[j + 1] == p[0]);
            } else {
                assert(newly_marked(s, next, x));
                let p = choose|p: Seq<EffectId>|
                    {
                        &&& p.len() > 0
                        &&& seq![first].contains(p[0])
                        &&& p.last() == x
                        &&& #[trigger] chain(s, p)
                        &&& all_clean(s, p)
                    };
                assert(list[0] == p[0]);
            }
        }
    }
}

/// Check marking marks exactly the effects that a chain of Clean effects leads to;
/// no other effect changes, and none that is Check or Dirty lets it pass.
pub proof fn law_check_marks_what_is_reached(s: State, list: Seq<EffectId>, e: EffectId)
    requires
        s.has_effect(e),
    ensures
        reached_clean(s, list, e) ==> s.check_list(list).effect(e) == (EffectModel {
            state: ReactiveState::Check,
            ..s.effect(e)
        }),
        !reached_clean(s, list, e) ==> s.check_list(list).effect(e) == s.effect(e),
        s.check_list(list).has_effect(e),
{
    let t = s.check_list(list);
    facts::lemma_check_list(s, list);
    lemma_checked_same(s, t);
    lemma_check_list_marks(s, list);
    assert(facts::slot_checked(s.effects[e.0 as int], t.effects[e.0 as int]));
    assert(t.has_effect(e));
    if reached_clean(s, list, e) {
        let p = choose|p: Seq<EffectId>|
            {
                &&& p.len() > 0
                &&& list.contains(p[0])
                &&& p.last() == e
                &&& #[trigger] chain(s, p)
                &&& all_clean(s, p)
            };
        lemma_chain_marked(s, list, p, p.len() - 1);
        assert(s.has_effect(p[p.len() - 1]) && s.state_of(p[p.len() - 1]) is Clean);
    } else if t.effect(e) != s.effect(e) {
        assert(newly_marked(s, t, e));
    }
}

/// Every effect of a Clean chain that starts in `list` is marked.
proof fn lemma_chain_marked(s: State, list: Seq<EffectId>, p: Seq<EffectId>, i: int)
    requires
        p.len() > 0,
        list.contains(p[0]),
        chain(s, p),
        all_clean(s, p),
        0 <= i < p.len(),
    ensures
        s.check_list(list).state_of(p[i]) !is Clean,
    decreases i,
{
    lemma_check_list_marks(s, list);
    let t = s.check_list(list);
    assert(s.has_effect(p[i]) && s.state_of(p[i]) is Clean);
    if i > 0 {
        lemma_chain_marked(s, list, p, i - 1);
        assert(s.has_effect(p[i - 1]) && s.state_of(p[i - 1]) is Clean);
        assert(newly_marked(s, t, p[i - 1]));
        assert(s.successors(p[i - 1]).contains(p[i - 1 + 1]));
    } else {
        assert(list.contains(p[i]) && s.has_effect(p[i]));
    }
}

// ---------------------------------------------------------------------------
// A push only upgrades
// ---------------------------------------------------------------------------

/// `t` is what a push makes of `s`: effects may be gone or upgraded, whoever was
/// upgraded is pending, subscriptions and writers may be gone; nothing else is changed.
pub open spec fn pushed(s: State, t: State) -> bool {
    &&& t.effects.len() == s.effects.len()
    &&& t.signals.len() == s.signals.len()
    &&& forall|e: EffectId| #[trigger] t.has_effect(e) ==> s.has_effect(e)
    &&& forall|e: EffectId| #[trigger]
        t.has_effect(e) ==> t.effect(e) == (EffectModel { state: t.state_of(e), ..s.effect(e) })
    &&& forall|e: EffectId| #[trigger]
        t.has_effect(e) ==> graph::rank(s.state_of(e)) <= graph::rank(t.state_of(e))
    &&& forall|g: SignalId| #[trigger] t.has_signal(g) == s.has_signal(g)
    &&& forall|g: SignalId, e: EffectId| #[trigger]
        t.subscribers(g).contains(e) ==> s.subscribers(g).contains(e)
    &&& forall|e: EffectId|
        s.pending.contains(e) && #[trigger] t.has_effect(e) ==> t.pending.contains(e)
    &&& forall|e: EffectId| #[trigger]
        t.has_effect(e) && t.state_of(e) != s.state_of(e) ==> t.pending.contains(e)
    &&& forall|g: SignalId, e: EffectId| #[trigger]
        t.writers_of(g).contains(e) ==> s.writers_of(g).contains(e)
    &&& forall|g: SignalId, e: EffectId|
        s.writers_of(g).contains(e) && t.has_effect(e) ==> #[trigger] t.writers_of(g).contains(e)
    &&& t.signal_gens == s.signal_gens
    &&& t.active == s.active
    &&& t.attached == s.attached
    &&& t.notice == s.notice
    &&& t.local == s.local
}

/// A push after a push is a push.
proof fn lemma_pushed_trans(s: State, t: State, u: State)
    requires
        pushed(s, t),
        pushed(t, u),
    ensures
        pushed(s, u),
{
    assert forall|e: EffectId| #[trigger] u.has_effect(e) implies s.has_effect(e) && u.effect(e)
        == (EffectModel { state: u.state_of(e), ..s.effect(e) }) && graph::rank(s.state_of(e))
        <= graph::rank(u.state_of(e)) && (s.pending.contains(e) ==> u.pending.contains(e)) && (
    u.state_of(e) != s.state_of(e) ==> u.pending.contains(e)) by {
        assert(t.has_effect(e));
    }
    assert forall|g: SignalId, e: EffectId| #[trigger]
        u.subscribers(g).contains(e) implies s.subscribers(g).contains(e) by {
        assert(t.subscribers(g).contains(e));
    }
    assert forall|g: SignalId| #[trigger] u.has_signal(g) == s.has_signal(g) by {
        assert(t.has_signal(g) == s.has_signal(g));
    }
    assert forall|g: SignalId, e: EffectId| #[trigger]
        u.writers_of(g).contains(e) implies s.writers_of(g).contains(e) by {
        assert(t.writers_of(g).contains(e));
    }
    assert forall|g: SignalId, e: EffectId|
        s.writers_of(g).contains(e) && u.has_effect(e) implies #[trigger] u.writers_of(g).contains(
        e,
    ) by {
        assert(t.has_effect(e));
        assert(t.writers_of(g).contains(e));
    }
}

/// A push makes nobody depend on anything.
proof fn lemma_pushed_successors(s: State, t: State, e: EffectId, x: EffectId)
    requires
        pushed(s, t),
        t.successors(e).contains(x),
    ensures
        s.successors(e).contains(x),
        t.has_effect(e),
{
    law_successors(t, e, x);
    law_successors(s, e, x);
    let g = choose|g: SignalId|
        t.outputs(e).contains(g) && #[trigger] t.subscribers(g).contains(x);
    if !t.has_effect(e) {
        crate::lists::lemma_no_links();
    }
    assert(t.has_effect(e));
    assert(s.outputs(e) == t.outputs(e));
    assert(s.subscribers(g).contains(x));
}

/// A Check mark makes an effect pending, and keeps pending what was.
proof fn lemma_check_effect_pending(s: State, e: EffectId)
    requires
        s.pending.no_duplicates(),
    ensures
        s.check_effect(e).pending.no_duplicates(),
        forall|x: EffectId| #[trigger]
            s.pending.contains(x) ==> s.check_effect(e).pending.contains(x),
        forall|x: EffectId| #[trigger]
            newly_marked(s, s.check_effect(e), x) ==> s.check_effect(e).pending.contains(x),
    decreases spread::clean_count(s.effects), 0nat,
{
    let t = s.check_effect(e);
    if s.state_of(e) is Clean {
        let marked = s.mark_check_one(e);
        facts::lemma_insert_once(s.pending, e);
        if s.has_effect(e) {
            spread::lemma_clean_count_update(
                s.effects,
                e.0 as int,
                Some(EffectModel { state: ReactiveState::Check, ..s.effect(e) }),
            );
            lemma_check_list_pending(marked, s.successors(e));
            assert forall|x: EffectId| #[trigger] newly_marked(s, t, x) implies t.pending.contains(
                x,
            ) by {
                if x == e {
                    assert(marked.pending.contains(x));
                } else {
                    assert(newly_marked(marked, t, x));
                }
            }
            assert forall|x: EffectId| #[trigger] s.pending.contains(
                x,
            ) implies t.pending.contains(x) by {
                assert(marked.pending.contains(x));
            }
        } else {
            assert(t.effects =~= s.effects);
        }
    }
}

/// As `lemma_check_effect_pending`, for a list.
proof fn lemma_check_list_pending(s: State, list: Seq<EffectId>)
    requires
        s.pending.no_duplicates(),
    ensures
        s.check_list(list).pending.no_duplicates(),
        forall|x: EffectId| #[trigger]
            s.pending.contains(x) ==> s.check_list(list).pending.contains(x),
        forall|x: EffectId| #[trigger]
            newly_marked(s, s.check_list(list), x) ==> s.check_list(list).pending.contains(x),
    decreases spread::clean_count(s.effects), list.len(),
{
    if list.len() > 0 {
        let t = s.check_list(list);
        let next = s.check_effect(list[0]);
        facts::lemma_check_effect(s, list[0]);
        lemma_checked_same(s, next);
        lemma_check_effect_pending(s, list[0]);
        lemma_check_list_pending(next, list.drop_first());
        assert forall|x: EffectId| #[trigger] newly_marked(s, t, x) implies t.pending.contains(
            x,
        ) by {
            if next.state_of(x) is Clean {
                assert(newly_marked(next, t, x));
            } else {
                assert(newly_marked(s, next, x));
            }
        }
        assert forall|x: EffectId| #[trigger] s.pending.contains(x) implies t.pending.contains(
            x,
        ) by {
            assert(next.pending.contains(x));
        }
    }
}

/// Check marking is a push.
pub proof fn lemma_check_list_pushed(s: State, list: Seq<EffectId>)
    requires
        s.wf(),
    ensures
        pushed(s, s.check_list(list)),
        s.check_list(list).wf(),
        s.anchored() ==> s.check_list(list).anchored(),
{
    let t = s.check_list(list);
    facts::lemma_check_list(s, list);
    lemma_checked_same(s, t);
    lemma_check_list_pending(s, list);
    assert forall|e: EffectId| #[trigger] t.has_effect(e) implies t.effect(e) == (EffectModel {
        state: t.state_of(e),
        ..s.effect(e)
    }) && graph::rank(s.state_of(e)) <= graph::rank(t.state_of(e)) && (t.state_of(e)
        != s.state_of(e) ==> t.pending.contains(e)) by {
        assert(facts::slot_checked(s.effects[e.0 as int], t.effects[e.0 as int]));
        if t.state_of(e) != s.state_of(e) {
            assert(newly_marked(s, t, e));
        }
    }
    assert forall|g: SignalId| #[trigger] t.subscribers(g) == s.subscribers(g) by {}
    assert forall|g: SignalId| #[trigger] t.has_signal(g) == s.has_signal(g) by {}
    assert forall|g: SignalId| #[trigger] t.writers_of(g) == s.writers_of(g) by {}
    assert forall|i: int| 0 <= i < t.effects.len() implies model::validity::effect_slot_wf(
        #[trigger] t.effects[i],
    ) by {
        assert(model::validity::effect_slot_wf(s.effects[i]));
        assert(facts::slot_checked(s.effects[i], t.effects[i]));
    }
    if s.anchored() {
        assert forall|g: SignalId, e: EffectId| #[trigger]
            t.subscribers(g).contains(e) implies t.has_source(e, g) by {
            assert(s.subscribers(g).contains(e));
            assert(s.has_source(e, g));
            assert(t.has_effect(e));
        }
    }
}

/// Marking one effect Dirty is a push.
#[verifier::spinoff_prover]
pub proof fn lemma_mark_pending_pushed(s: State, e: EffectId)
    requires
        s.wf(),
    ensures
        pushed(s, s.mark_pending(e)),
        s.mark_pending(e).wf(),
        s.anchored() ==> s.mark_pending(e).anchored(),
        s.mark_pending(e).has_effect(e) ==> s.mark_pending(e).state_of(e) is Dirty,
        forall|x: EffectId|
            x != e && #[trigger] s.mark_pending(e).has_effect(x) ==> s.mark_pending(e).state_of(x)
                == s.state_of(x),
        s.mark_pending(e).children.submap_of(s.children),
        forall|x: EffectId|
            s.has_effect(x) && !#[trigger] s.mark_pending(e).has_effect(x) ==> s.has_effect(e)
                && tree::descends(s.children, e, x),
{
    if s.can_mark(e) {
        let dirty = s.set_state(e, ReactiveState::Dirty);
        tree::lemma_set_state(s, e, ReactiveState::Dirty);
        tree::law_destroy_children(dirty, e);
        let cut = dirty.destroy_children(e);
        let t = s.mark_pending(e);
        assert(t == cut.pending_insert(e));
        facts::lemma_insert_once(cut.pending, e);
        assert forall|g: SignalId| #[trigger] t.subscribers(g) == cut.subscribers(g) by {}
        assert forall|g: SignalId| #[trigger] t.has_signal(g) == cut.has_signal(g) by {}
        assert forall|g: SignalId| #[trigger] dirty.subscribers(g) == s.subscribers(g) by {}
        assert forall|g: SignalId| #[trigger] dirty.has_signal(g) == s.has_signal(g) by {}
        assert forall|g: SignalId| #[trigger] dirty.writers_of(g) == s.writers_of(g) by {}
        assert forall|g: SignalId| #[trigger] t.writers_of(g) == cut.writers_of(g) by {}
        assert forall|g: SignalId, x: EffectId|
            s.writers_of(g).contains(x) && t.has_effect(x) implies #[trigger] t.writers_of(
            g,
        ).contains(x) by {
            assert(dirty.writers_of(g).contains(x));
            assert(cut.has_effect(x));
            assert(cut.writers_of(g).contains(x));
        }
        assert forall|g: SignalId, x: EffectId| #[trigger]
            t.writers_of(g).contains(x) implies s.writers_of(g).contains(x) by {
            assert(cut.writers_of(g).contains(x));
            assert(dirty.writers_of(g).contains(x));
        }
        assert forall|x: EffectId| #[trigger] t.has_effect(x) implies s.has_effect(x)
            && t.effect(x) == (EffectModel { state: t.state_of(x), ..s.effect(x) })
            && graph::rank(s.state_of(x)) <= graph::rank(t.state_of(x)) && (s.pending.contains(
            x,
        ) ==> t.pending.contains(x)) && (t.state_of(x) != s.state_of(x) ==> t.pending.contains(
            x,
        )) && (x != e ==> t.state_of(x) == s.state_of(x)) by {
            assert(cut.has_effect(x));
            assert(dirty.has_effect(x));
            assert(cut.effect(x) == dirty.effect(x));
        }
        assert forall|g: SignalId, x: EffectId| #[trigger]
            t.subscribers(g).contains(x) implies s.subscribers(g).contains(x) by {
            assert(cut.subscribers(g).contains(x));
            assert(dirty.subscribers(g).contains(x));
        }
        assert forall|g: SignalId| #[trigger] t.has_signal(g) == s.has_signal(g) by {
            assert(cut.has_signal(g) == dirty.has_signal(g));
        }
        assert forall|x: EffectId| s.has_effect(x) && !#[trigger] t.has_effect(x) implies s.has_effect(
            e,
        ) && tree::descends(s.children, e, x) by {
            assert(dirty.has_effect(x));
            assert(!cut.has_effect(x));
        }
        assert(t.children.submap_of(s.children)) by {
            assert forall|k: EffectId| #[trigger] t.children.dom().contains(k) implies s.children.dom().contains(
                k,
            ) && t.children[k] == s.children[k] by {
                assert(cut.children.contains_key(k));
            }
        }
        if t.has_effect(e) {
            assert(t.effects == cut.effects);
            assert(cut.has_effect(e));
            assert(cut.effect(e) == dirty.effect(e));
            assert(dirty.state_of(e) is Dirty);
        }
        assert(t.wf());
        if s.anchored() {
            assert forall|g: SignalId, x: EffectId| #[trigger]
                t.subscribers(g).contains(x) implies t.has_source(x, g) by {
                assert(cut.subscribers(g).contains(x));
                assert(cut.has_source(x, g));
            }
        }
    }
}

// ---------------------------------------------------------------------------
// Notification
// ---------------------------------------------------------------------------

/// `x` is one of `list` and told of the change.
pub open spec fn told(s: State, list: Seq<EffectId>, from_ui: bool, x: EffectId) -> bool {
    list.contains(x) && !(from_ui && s.is_ui_only(x))
}

/// `e` depends, in one or more steps, on one of `list` that is told of the change.
pub open spec fn downstream(s: State, list: Seq<EffectId>, from_ui: bool, e: EffectId) -> bool {
    exists|p: Seq<EffectId>|
        {
            &&& p.len() >= 2
            &&& told(s, list, from_ui, p[0])
            &&& p.last() == e
            &&& #[trigger] chain(s, p)
        }
}

/// `e` descends from one of `list` that is told of the change.
pub open spec fn below_told(s: State, list: Seq<EffectId>, from_ui: bool, e: EffectId) -> bool {
    exists|x: EffectId|
        told(s, list, from_ui, x) && s.has_effect(x) && #[trigger] tree::descends(s.children, x, e)
}

/// `t` is what notifying the effects of `list` makes of `s`.
pub open spec fn notified(s: State, list: Seq<EffectId>, from_ui: bool, t: State) -> bool {
    // it is a push
    &&& pushed(s, t)
    &&& t.wf()
    &&& s.anchored() ==> t.anchored()
    // whoever is told is Dirty, and whoever depends on it is not Clean
    &&& forall|x: EffectId| #[trigger]
        told(s, list, from_ui, x) && t.has_effect(x) ==> t.state_of(x) is Dirty
    &&& forall|x: EffectId, y: EffectId|
        told(s, list, from_ui, x) && t.has_effect(y) && #[trigger] t.successors(x).contains(y)
            ==> t.state_of(y) !is Clean
    // whoever is gone descends from somebody who is told
    &&& t.children.submap_of(s.children)
    &&& forall|e: EffectId|
        s.has_effect(e) && !#[trigger] t.has_effect(e) ==> below_told(s, list, from_ui, e)
    // nobody else changes
    &&& forall|e: EffectId| #[trigger]
        t.has_effect(e) && t.state_of(e) != s.state_of(e) ==> match t.state_of(e) {
            ReactiveState::Clean => false,
            ReactiveState::Check => downstream(s, list, from_ui, e),
            ReactiveState::Dirty => told(s, list, from_ui, e),
        }
}

/// One subscriber is notified.
#[verifier::spinoff_prover]
proof fn lemma_notify_one(s: State, e: EffectId)
    requires
        s.wf(),
    ensures
        notified(s, seq![e], false, s.notify_one(e)),
{
    let marked = s.mark_pending(e);
    let next = marked.successors(e);
    let t = s.notify_one(e);
    let list = seq![e];
    assert forall|x: EffectId| #[trigger] list.contains(x) <==> x == e by {
        if x == e {
            assert(list[0] == x);
        }
    }
    lemma_mark_pending_pushed(s, e);
    lemma_check_list_pushed(marked, next);
    lemma_pushed_trans(s, marked, t);
    facts::lemma_check_list(marked, next);
    lemma_checked_same(marked, t);
    lemma_check_list_marks(marked, next);
    assert forall|x: EffectId| #[trigger] told(s, list, false, x) && t.has_effect(
        x,
    ) implies t.state_of(x) is Dirty by {
        assert(marked.has_effect(x));
    }
    assert forall|x: EffectId| s.has_effect(x) && !#[trigger] t.has_effect(x) implies below_told(
        s,
        list,
        false,
        x,
    ) by {
        assert(!marked.has_effect(x));
        assert(told(s, list, false, e) && s.has_effect(e) && tree::descends(s.children, e, x));
    }
    assert(t.children == marked.children);
    assert forall|x: EffectId, y: EffectId|
        told(s, list, false, x) && t.has_effect(y) && #[trigger] t.successors(x).contains(
            y,
        ) implies t.state_of(y) !is Clean by {
        assert(marked.successors(x).contains(y));
        assert(next.contains(y) && marked.has_effect(y));
    }
    assert forall|x: EffectId| #[trigger] t.has_effect(x) && t.state_of(x) != s.state_of(
        x,
    ) implies match t.state_of(x) {
        ReactiveState::Clean => false,
        ReactiveState::Check => downstream(s, list, false, x),
        ReactiveState::Dirty => told(s, list, false, x),
    } by {
        assert(marked.has_effect(x));
        if marked.state_of(x) == t.state_of(x) {
            assert(x == e);
        } else {
            assert(marked.state_of(x) is Clean);
            assert(newly_marked(marked, t, x));
            let q = choose|p: Seq<EffectId>|
                {
                    &&& p.len() > 0
                    &&& next.contains(p[0])
                    &&& p.last() == x
                    &&& #[trigger] chain(marked, p)
                    &&& all_clean(marked, p)
                };
            let p = seq![e] + q;
            assert forall|i: int| 0 <= i < p.len() - 1 implies s.successors(
                #[trigger] p[i],
            ).contains(p[i + 1]) by {
                if i > 0 {
                    assert(p[i] == q[i - 1] && p[i + 1] == q[i]);
                    assert(marked.successors(q[i - 1]).contains(q[i - 1 + 1]));
                    lemma_pushed_successors(s, marked, q[i - 1], q[i]);
                } else {
                    assert(p[1] == q[0]);
                    lemma_pushed_successors(s, marked, e, q[0]);
                }
            }
            assert(chain(s, p));
            assert(p[0] == e && p.last() == x);
            assert(told(s, list, false, p[0]));
            assert(t.state_of(x) is Check);
        }
    }
}

/// A chain in the pushed state is a chain in the state before.
proof fn lemma_downstream_before(
    s: State,
    t: State,
    list: Seq<EffectId>,
    from_ui: bool,
    e: EffectId,
)
    requires
        pushed(s, t),
        downstream(t, list, from_ui, e),
    ensures
        downstream(s, list, from_ui, e),
{
    let p = choose|p: Seq<EffectId>|
        {
            &&& p.len() >= 2
            &&& told(t, list, from_ui, p[0])
            &&& p.last() == e
            &&& #[trigger] chain(t, p)
        };
    assert forall|i: int| 0 <= i < p.len() - 1 implies s.successors(#[trigger] p[i]).contains(
        p[i + 1],
    ) by {
        assert(t.successors(p[i]).contains(p[i + 1]));
        lemma_pushed_successors(s, t, p[i], p[i + 1]);
    }
    assert(chain(s, p));
    assert(t.successors(p[0]).contains(p[0int + 1]));
    lemma_pushed_successors(s, t, p[0], p[1]);
    assert(told(s, list, from_ui, p[0]));
}

/// The subscribers are notified one after the other.
#[verifier::spinoff_prover]
pub proof fn lemma_notify_list(s: State, list: Seq<EffectId>, from_ui: bool)
    requires
        s.wf(),
    ensures
        notified(s, list, from_ui, s.notify_list(list, from_ui)),
    decreases list.len(),
{
    let t = s.notify_list(list, from_ui);
    if list.len() > 0 {
        let first = list[0];
        let rest = list.drop_first();
        let skipped = from_ui && s.is_ui_only(first);
        let one = if skipped {
            s
        } else {
            s.notify_one(first)
        };
        if skipped {
            assert(pushed(s, s));
        } else {
            lemma_notify_one(s, first);
        }
        lemma_notify_list(one, rest, from_ui);
        lemma_pushed_trans(s, one, t);
        assert forall|x: EffectId| #[trigger] list.contains(x) <==> x == first || rest.contains(
            x,
        ) by {
            if list.contains(x) {
                let i = list.index_of(x);
                if i > 0 {
                    assert(rest[i - 1] == x);
                }
            }
            if rest.contains(x) {
                let i = rest.index_of(x);
                assert(list[i + 1] == x);
            }
        }
        let head = seq![first];
        assert forall|x: EffectId| #[trigger] head.contains(x) <==> x == first by {
            if x == first {
                assert(head[0] == x);
            }
        }
        assert(one.children.submap_of(s.children) && t.children.submap_of(one.children));
        assert(t.children.submap_of(s.children)) by {
            assert forall|k: EffectId| #[trigger] t.children.dom().contains(k) implies s.children.dom().contains(
                k,
            ) && t.children[k] == s.children[k] by {
                assert(one.children.dom().contains(k));
                assert(s.children.dom().contains(k));
            }
        }
        assert forall|e: EffectId| s.has_effect(e) && !#[trigger] t.has_effect(e) implies below_told(
            s,
            list,
            from_ui,
            e,
        ) by {
            if one.has_effect(e) {
                let x = choose|x: EffectId|
                    told(one, rest, from_ui, x) && one.has_effect(x) && #[trigger] tree::descends(
                        one.children,
                        x,
                        e,
                    );
                tree::lemma_lineage_grows(one.children, s.children, x, e);
                assert(told(s, list, from_ui, x) && s.has_effect(x));
            } else {
                let x = choose|x: EffectId|
                    told(s, head, false, x) && s.has_effect(x) && #[trigger] tree::descends(
                        s.children,
                        x,
                        e,
                    );
                assert(told(s, list, from_ui, x));
            }
        }
        assert forall|x: EffectId| #[trigger] told(s, list, from_ui, x) && t.has_effect(
            x,
        ) implies t.state_of(x) is Dirty by {
            assert(one.has_effect(x));
            if rest.contains(x) {
                assert(told(one, rest, from_ui, x));
            } else {
                assert(told(s, head, false, x));
                assert(one.state_of(x) is Dirty);
            }
        }
        assert forall|x: EffectId, y: EffectId|
            told(s, list, from_ui, x) && t.has_effect(y) && #[trigger] t.successors(x).contains(
                y,
            ) implies t.state_of(y) !is Clean by {
            lemma_pushed_successors(one, t, x, y);
            assert(one.has_effect(x));
            assert(one.has_effect(y));
            if rest.contains(x) {
                assert(told(one, rest, from_ui, x));
            } else {
                assert(told(s, head, false, x));
                assert(one.successors(x).contains(y));
                assert(one.state_of(y) !is Clean);
            }
        }
        assert forall|e: EffectId| #[trigger] t.has_effect(e) && t.state_of(e) != s.state_of(
            e,
        ) implies match t.state_of(e) {
            ReactiveState::Clean => false,
            ReactiveState::Check => downstream(s, list, from_ui, e),
            ReactiveState::Dirty => told(s, list, from_ui, e),
        } by {
            assert(one.has_effect(e));
            if one.state_of(e) == t.state_of(e) {
                if !skipped {
                    if t.state_of(e) is Check {
                        let p = choose|p: Seq<EffectId>|
                            {
                                &&& p.len() >= 2
                                &&& told(s, head, false, p[0])
                                &&& p.last() == e
                                &&& #[trigger] chain(s, p)
                            };
                        assert(told(s, list, from_ui, p[0]));
                    } else {
                        assert(told(s, head, false, e));
                    }
                }
            } else {
                if t.state_of(e) is Check {
                    lemma_downstream_before(s, one, rest, from_ui, e);
                    let p = choose|p: Seq<EffectId>|
                        {
                            &&& p.len() >= 2
                            &&& told(s, rest, from_ui, p[0])
                            &&& p.last() == e
                            &&& #[trigger] chain(s, p)
                        };
                    assert(told(s, list, from_ui, p[0]));
                } else {
                    assert(told(one, rest, from_ui, e));
                }
            }
        }
    } else {
        assert(pushed(s, s));
    }
}

// ---------------------------------------------------------------------------
// All the way down
// ---------------------------------------------------------------------------

/// Whoever depends on an effect that was newly marked and lives on is not Clean.
pub open spec fn spread_on(s: State, t: State) -> bool {
    forall|a: EffectId, b: EffectId|
        newly_marked(s, t, a) && #[trigger] t.successors(a).contains(b) && t.has_effect(b)
            ==> t.state_of(b) !is Clean
}

/// To tell one effect of a change spreads on.
proof fn lemma_notify_one_spreads(s: State, e: EffectId)
    requires
        s.wf(),
    ensures
        spread_on(s, s.notify_one(e)),
{
    let marked = s.mark_pending(e);
    let list = marked.successors(e);
    let t = s.notify_one(e);
    lemma_notify_one(s, e);
    lemma_mark_pending_pushed(s, e);
    facts::lemma_check_list(marked, list);
    lemma_check_list_marks(marked, list);
    lemma_checked_same(marked, t);
    assert forall|a: EffectId, b: EffectId|
        newly_marked(s, t, a) && #[trigger] t.successors(a).contains(b) && t.has_effect(
            b,
        ) implies t.state_of(b) !is Clean by {
        if a == e {
            assert(seq![e][0] == e);
            assert(told(s, seq![e], false, e));
        } else {
            assert(t.has_effect(a));
            assert(marked.has_effect(a));
            assert(marked.state_of(a) == s.state_of(a));
            assert(newly_marked(marked, t, a));
            assert(marked.successors(a).contains(b));
            assert(marked.has_effect(b));
        }
    }
}

/// To tell a list of effects of a change spreads on.
proof fn lemma_notify_list_spreads(s: State, list: Seq<EffectId>, from_ui: bool)
    requires
        s.wf(),
    ensures
        spread_on(s, s.notify_list(list, from_ui)),
    decreases list.len(),
{
    if list.len() > 0 {
        let rest = list.drop_first();
        let t = s.notify_list(list, from_ui);
        if from_ui && s.is_ui_only(list[0]) {
            lemma_notify_list_spreads(s, rest, from_ui);
        } else {
            let one = s.notify_one(list[0]);
            lemma_notify_one(s, list[0]);
            lemma_notify_one_spreads(s, list[0]);
            lemma_notify_list(one, rest, from_ui);
            lemma_notify_list_spreads(one, rest, from_ui);
            assert forall|a: EffectId, b: EffectId|
                newly_marked(s, t, a) && #[trigger] t.successors(a).contains(b) && t.has_effect(
                    b,
                ) implies t.state_of(b) !is Clean by {
                assert(t.has_effect(a));
                assert(one.has_effect(a));
                assert(one.has_effect(b));
                lemma_pushed_successors(one, t, a, b);
                if one.state_of(a) !is Clean {
                    assert(newly_marked(s, one, a));
                    assert(one.successors(a).contains(b));
                    assert(one.state_of(b) !is Clean);
                } else {
                    assert(newly_marked(one, t, a));
                }
            }
        }
    }
}

/// A change reaches all that depends on it, however far down: along a chain that begins with
/// an effect that is told of the change, where each depends on the one before it and was
/// Clean, nobody is Clean after it.
pub proof fn law_notify_reaches_downstream(
    s: State,
    list: Seq<EffectId>,
    from_ui: bool,
    p: Seq<EffectId>,
    i: int,
)
    requires
        s.wf(),
        p.len() >= 2,
        told(s, list, from_ui, p[0]),
        chain(s.notify_list(list, from_ui), p),
        forall|k: int|
            1 <= k < p.len() ==> s.state_of(#[trigger] p[k]) is Clean && s.notify_list(
                list,
                from_ui,
            ).has_effect(p[k]),
        1 <= i < p.len(),
    ensures
        s.notify_list(list, from_ui).state_of(p[i]) !is Clean,
    decreases i,
{
    let t = s.notify_list(list, from_ui);
    lemma_notify_list(s, list, from_ui);
    assert(t.successors(p[i - 1]).contains(p[i]));
    if i > 1 {
        law_notify_reaches_downstream(s, list, from_ui, p, i - 1);
        lemma_notify_list_spreads(s, list, from_ui);
        assert(newly_marked(s, t, p[i - 1]));
    }
}

} // verus!
