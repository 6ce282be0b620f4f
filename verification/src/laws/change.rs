//! What a change does to those who depend on it, stated over the state before it.
use vstd::prelude::*;

use crate::arena::effect_arena::EffectId;
use crate::arena::effect_arena::ReactiveState;
use crate::arena::signal_arena::SignalId;
use crate::laws::links;
use crate::laws::parts;
use crate::laws::push;
use crate::laws::tree;
use crate::laws::valid;
use crate::lists;
use crate::model;
use crate::model::facts;
use crate::model::graph;
use crate::model::EffectModel;
use crate::model::LocalModel;
use crate::model::State;

verus! {

// ---------------------------------------------------------------------------
// Invalidation
// ---------------------------------------------------------------------------

/// To invalidate an effect makes it Dirty and pending, and destroys all that descends from
/// it. Nobody else's state changes, and nobody else comes to be pending. One that is stale
/// or Dirty already is left alone, and so is everything else.
pub proof fn law_invalidate(s: State, e: EffectId)
    requires
        s.wf(),
    ensures
        ({
            let t = s.mark_pending(e);
            let marked = s.has_effect(e) && s.state_of(e) !is Dirty;
            &&& s.can_mark(e) <==> marked
            &&& !marked ==> t == s
            &&& marked && !tree::descends(s.children, e, e) ==> t.has_effect(e) && t.effect(e) == (
            EffectModel { state: ReactiveState::Dirty, ..s.effect(e) })
            &&& marked ==> t.pending.contains(e) && t.children_of(e) == Seq::<EffectId>::empty()
            &&& marked ==> forall|x: EffectId|
                x != e ==> (#[trigger] t.has_effect(x) <==> s.has_effect(x) && !tree::descends(
                    s.children,
                    e,
                    x,
                ))
            &&& forall|x: EffectId|
                x != e && #[trigger] t.has_effect(x) ==> t.effect(x) == s.effect(x)
            &&& marked ==> forall|x: EffectId|
                x != e ==> (#[trigger] t.pending.contains(x) <==> s.pending.contains(x)
                    && !tree::descends(s.children, e, x))
            &&& t.local == s.local
            &&& t.signal_gens == s.signal_gens
            &&& t.active == s.active
            &&& t.attached == s.attached
            &&& t.notice == s.notice
        }),
{
    if s.can_mark(e) {
        let d = s.set_state(e, ReactiveState::Dirty);
        let cut = d.destroy_children(e);
        tree::lemma_set_state(s, e, ReactiveState::Dirty);
        tree::law_destroy_children(d, e);
        facts::lemma_insert_once(cut.pending, e);
        let t = s.mark_pending(e);
        assert(d.children == s.children);
        assert forall|x: EffectId| #[trigger] t.has_effect(x) == cut.has_effect(x) by {}
        assert forall|x: EffectId| x != e && #[trigger] t.has_effect(x) implies t.effect(x)
            == s.effect(x) by {
            assert(cut.has_effect(x));
            assert(cut.effect(x) == d.effect(x));
        }
        if !tree::descends(s.children, e, e) {
            assert(cut.has_effect(e));
            assert(cut.effect(e) == d.effect(e));
        }
        assert forall|x: EffectId| x != e implies (#[trigger] t.pending.contains(x)
            <==> s.pending.contains(x) && !tree::descends(s.children, e, x)) by {
            assert(t.pending.contains(x) <==> cut.pending.contains(x));
        }
        assert(!cut.children.contains_key(e));
    }
}

/// Where an effect is live, the two ways to make it Dirty are one; one that is stale is only
/// made pending by the second, besides losing what descends from it.
pub proof fn law_mark_dirty(s: State, e: EffectId)
    requires
        s.wf(),
    ensures
        s.has_effect(e) ==> s.mark_dirty(e) == s.mark_pending(e),
        !s.has_effect(e) ==> s.mark_dirty(e).pending.contains(e),
        !s.has_effect(e) ==> forall|x: EffectId|
            #![trigger s.mark_dirty(e).has_effect(x)]
            s.mark_dirty(e).has_effect(x) <==> s.has_effect(x) && !tree::descends(
                s.children,
                e,
                x,
            ),
        !s.has_effect(e) ==> forall|x: EffectId| #[trigger]
            s.mark_dirty(e).has_effect(x) ==> s.mark_dirty(e).effect(x) == s.effect(x),
{
    if !s.has_effect(e) {
        let cut = s.destroy_children(e);
        let t = s.mark_dirty(e);
        tree::law_destroy_children(s, e);
        facts::lemma_insert_once(cut.pending, e);
        assert forall|x: EffectId| #[trigger] t.has_effect(x) == cut.has_effect(x) by {}
        assert forall|x: EffectId| #[trigger] t.has_effect(x) implies t.effect(x) == s.effect(
            x,
        ) by {
            assert(cut.has_effect(x));
        }
    }
}

// ---------------------------------------------------------------------------
// What stays
// ---------------------------------------------------------------------------

/// Whoever is live in `t` is subscribed to the same signals as in `s`, writes the same
/// signals and has the same parent.
pub open spec fn same_ties(s: State, t: State) -> bool {
    &&& forall|e: EffectId| #[trigger] t.has_effect(e) ==> s.has_effect(e)
    &&& forall|g: SignalId, e: EffectId|
        t.has_effect(e) ==> (#[trigger] t.subscribers(g).contains(e) <==> s.subscribers(
            g,
        ).contains(e))
    &&& forall|g: SignalId, e: EffectId|
        t.has_effect(e) ==> (#[trigger] t.writers_of(g).contains(e) <==> s.writers_of(g).contains(
            e,
        ))
    &&& forall|e: EffectId|
        t.has_effect(e) ==> (#[trigger] t.parents.contains_key(e) <==> s.parents.contains_key(e))
    &&& forall|e: EffectId|
        t.has_effect(e) && #[trigger] t.parents.contains_key(e) ==> t.parents[e] == s.parents[e]
}

/// Ties last.
proof fn lemma_ties_last(s: State, t: State, u: State)
    requires
        same_ties(s, t),
        same_ties(t, u),
    ensures
        same_ties(s, u),
{
    assert forall|g: SignalId, e: EffectId| u.has_effect(e) implies (#[trigger] u.subscribers(
        g,
    ).contains(e) <==> s.subscribers(g).contains(e)) by {
        assert(t.has_effect(e));
        assert(u.subscribers(g).contains(e) <==> t.subscribers(g).contains(e));
    }
    assert forall|g: SignalId, e: EffectId| u.has_effect(e) implies (#[trigger] u.writers_of(
        g,
    ).contains(e) <==> s.writers_of(g).contains(e)) by {
        assert(t.has_effect(e));
        assert(u.writers_of(g).contains(e) <==> t.writers_of(g).contains(e));
    }
    assert forall|e: EffectId| u.has_effect(e) implies (#[trigger] u.parents.contains_key(e)
        <==> s.parents.contains_key(e)) by {
        assert(t.has_effect(e));
        assert(u.parents.contains_key(e) <==> t.parents.contains_key(e));
    }
    assert forall|e: EffectId|
        u.has_effect(e) && #[trigger] u.parents.contains_key(e) implies u.parents[e]
        == s.parents[e] by {
        assert(t.has_effect(e));
        assert(t.parents.contains_key(e));
    }
}

/// Marking one effect Dirty keeps the ties of those who live on.
proof fn lemma_mark_pending_ties(s: State, e: EffectId)
    requires
        s.wf(),
    ensures
        same_ties(s, s.mark_pending(e)),
{
    if s.can_mark(e) {
        let d = s.set_state(e, ReactiveState::Dirty);
        let cut = d.destroy_children(e);
        let t = s.mark_pending(e);
        tree::lemma_set_state(s, e, ReactiveState::Dirty);
        tree::law_destroy_children(d, e);
        assert forall|x: EffectId| #[trigger] t.has_effect(x) implies s.has_effect(x) by {
            assert(cut.has_effect(x));
            assert(d.has_effect(x));
        }
        assert forall|g: SignalId, x: EffectId| t.has_effect(x) implies (#[trigger] t.subscribers(
            g,
        ).contains(x) <==> s.subscribers(g).contains(x)) by {
            assert(cut.has_effect(x));
            assert(t.subscribers(g) == cut.subscribers(g));
            assert(d.subscribers(g) == s.subscribers(g));
            if s.subscribers(g).contains(x) {
                assert(d.subscribers(g).contains(x));
                assert(cut.subscribers(g).contains(x));
            }
        }
        assert forall|g: SignalId, x: EffectId| t.has_effect(x) implies (#[trigger] t.writers_of(
            g,
        ).contains(x) <==> s.writers_of(g).contains(x)) by {
            assert(cut.has_effect(x));
            assert(t.writers_of(g) == cut.writers_of(g));
            assert(d.writers_of(g) == s.writers_of(g));
            if s.writers_of(g).contains(x) {
                assert(d.writers_of(g).contains(x));
                assert(cut.writers_of(g).contains(x));
            }
        }
        assert forall|x: EffectId| t.has_effect(x) implies (#[trigger] t.parents.contains_key(x)
            <==> s.parents.contains_key(x)) by {
            assert(cut.has_effect(x));
            assert(cut.parents.contains_key(x) <==> d.parents.contains_key(x));
        }
        assert forall|x: EffectId|
            t.has_effect(x) && #[trigger] t.parents.contains_key(x) implies t.parents[x]
            == s.parents[x] by {
            assert(cut.parents.contains_key(x));
        }
    }
}

/// To tell a list of effects of a change keeps the ties of those who live on.
pub proof fn lemma_notify_ties(s: State, list: Seq<EffectId>, from_ui: bool)
    requires
        s.wf(),
    ensures
        same_ties(s, s.notify_list(list, from_ui)),
    decreases list.len(),
{
    if list.len() > 0 {
        let rest = list.drop_first();
        if from_ui && s.is_ui_only(list[0]) {
            lemma_notify_ties(s, rest, from_ui);
        } else {
            let e = list[0];
            let marked = s.mark_pending(e);
            let next = s.notify_one(e);
            lemma_mark_pending_ties(s, e);
            push::lemma_mark_pending_pushed(s, e);
            facts::lemma_check_list(marked, marked.successors(e));
            push::lemma_check_list_pushed(marked, marked.successors(e));
            assert(same_ties(marked, next)) by {
                assert forall|x: EffectId| #[trigger] next.has_effect(x) implies marked.has_effect(
                    x,
                ) by {
                    facts::lemma_checked_links(marked, next, x);
                }
                assert forall|g: SignalId| #[trigger] next.subscribers(g)
                    == marked.subscribers(g) by {
                    facts::lemma_checked_links(marked, next, e);
                }
                assert forall|g: SignalId| #[trigger] next.writers_of(g) == marked.writers_of(
                    g,
                ) by {}
            }
            lemma_ties_last(s, marked, next);
            lemma_notify_ties(next, rest, from_ui);
            lemma_ties_last(s, next, s.notify_list(list, from_ui));
        }
    }
}

// ---------------------------------------------------------------------------
// Notification
// ---------------------------------------------------------------------------

/// A signal that has changed makes every subscriber Dirty, and pending if it was not Dirty
/// before, unless the change comes from the UI and the subscriber is not told of such
/// changes, or the subscriber is destroyed.
pub proof fn law_notify_reaches_every_subscriber(
    s: State,
    g: SignalId,
    from_ui: bool,
    x: EffectId,
)
    requires
        s.wf(),
        s.subscribers(g).contains(x),
        !(from_ui && s.is_ui_only(x)),
        s.notify_subscribers(g, from_ui).has_effect(x),
    ensures
        s.notify_subscribers(g, from_ui).state_of(x) is Dirty,
        s.state_of(x) !is Dirty ==> s.notify_subscribers(g, from_ui).pending.contains(x),
{
    let t = s.notify_subscribers(g, from_ui);
    push::lemma_notify_list(s, s.subscribers(g), from_ui);
    assert(push::told(s, s.subscribers(g), from_ui, x));
}

/// Nobody else becomes Dirty; whoever is gone descends from a subscriber that was told; who
/// lives on keeps its ties, and all but its state, and comes to be pending only if that
/// changes.
pub proof fn law_notify_spares_others(s: State, g: SignalId, from_ui: bool)
    requires
        s.wf(),
    ensures
        ({
            let t = s.notify_subscribers(g, from_ui);
            &&& same_ties(s, t)
            &&& forall|e: EffectId| #[trigger]
                t.has_effect(e) ==> t.effect(e) == (EffectModel {
                    state: t.state_of(e),
                    ..s.effect(e)
                })
            &&& forall|e: EffectId| #[trigger]
                t.has_effect(e) && t.state_of(e) is Dirty && s.state_of(e) !is Dirty
                    ==> s.subscribers(g).contains(e) && !(from_ui && s.is_ui_only(e))
            &&& forall|e: EffectId|
                s.has_effect(e) && !#[trigger] t.has_effect(e) ==> destroyed_by(s, g, from_ui, e)
            &&& forall|e: EffectId| #[trigger] pending_if_marked(s, t, e)
            &&& t.local == s.local
            &&& t.signal_gens == s.signal_gens
            &&& t.active == s.active
            &&& t.attached == s.attached
            &&& t.notice == s.notice
        }),
{
    let t = s.notify_subscribers(g, from_ui);
    let list = s.subscribers(g);
    push::lemma_notify_list(s, list, from_ui);
    lemma_notify_ties(s, list, from_ui);
    lemma_notify_pending(s, list, from_ui);
    assert forall|e: EffectId|
        s.has_effect(e) && !#[trigger] t.has_effect(e) implies destroyed_by(s, g, from_ui, e) by {
        assert(push::below_told(s, list, from_ui, e));
        let x = choose|x: EffectId|
            push::told(s, list, from_ui, x) && s.has_effect(x) && #[trigger] tree::descends(
                s.children,
                x,
                e,
            );
        assert(list.contains(x) && !(from_ui && s.is_ui_only(x)));
    }
}

/// `e` descends from a subscriber of `g` that is told of the change.
pub open spec fn destroyed_by(s: State, g: SignalId, from_ui: bool, e: EffectId) -> bool {
    exists|x: EffectId|
        s.subscribers(g).contains(x) && !(from_ui && s.is_ui_only(x)) && #[trigger] tree::descends(
            s.children,
            x,
            e,
        )
}

// ---------------------------------------------------------------------------
// Emits
// ---------------------------------------------------------------------------

/// A change counts as one from the UI if it comes from there or UI updates are suppressed,
/// and in no other case: in particular it does not matter who makes it.
pub proof fn law_origin(s: State, from_ui: bool)
    ensures
        s.counts_as_ui(from_ui) <==> from_ui || s.local.suppress,
{
}

/// The writer of a change is noted, and nothing else. The current effect becomes a writer of
/// the signal; if it was a reader of it, it is not any more, and that is reported. No state
/// changes, nothing comes to be pending or stops to be, and nobody else's ties change. Where
/// there is no current effect nothing changes at all.
pub proof fn law_writer_is_noted(s: State, g: SignalId, ui: bool)
    ensures
        s.local.current is None ==> s.register_writer(g, ui) == s,
        s.local.current matches Some(c) ==> {
            let r = s.register_writer(g, ui);
            &&& r == (State {
                effects: r.effects,
                signals: r.signals,
                writers: r.writers,
                local: LocalModel { warning: r.local.warning, ..s.local },
                ..s
            })
            &&& r.local.warning == (if s.has_source(c, g) {
                Some((c, g))
            } else {
                s.local.warning
            })
            &&& forall|x: EffectId| #[trigger] r.has_effect(x) <==> s.has_effect(x)
            &&& forall|x: EffectId|
                x != c && #[trigger] s.has_effect(x) ==> r.effect(x) == s.effect(x)
            &&& s.has_effect(c) ==> r.effect(c) == (EffectModel {
                signals: r.links(c),
                ..s.effect(c)
            })
            &&& forall|x: EffectId, h: SignalId| #[trigger]
                r.has_source(x, h) <==> s.has_source(x, h) && !(x == c && h == g)
            &&& forall|h: SignalId|
                s.has_effect(c) ==> (#[trigger] links::writes(r.links(c), h) <==> links::writes(
                    s.links(c),
                    h,
                ) || h == g)
            &&& forall|h: SignalId| #[trigger] r.has_signal(h) <==> s.has_signal(h)
            &&& forall|h: SignalId, x: EffectId| #[trigger]
                r.subscribers(h).contains(x) <==> s.subscribers(h).contains(x) && !(h == g && x
                    == c && s.has_source(c, g))
            &&& forall|h: SignalId, x: EffectId| #[trigger]
                r.writers_of(h).contains(x) <==> s.writers_of(h).contains(x) || (h == g && x == c)
        },
{
    if let Some(c) = s.local.current {
        let r = s.register_writer(g, ui);
        let warned = s.with_warning(c, g);
        let apart = warned.remove_subscriber(g, c);
        let cut = apart.remove_source(c, g);
        let broken = if s.has_source(c, g) {
            cut
        } else {
            s
        };
        valid::lemma_remove_subscriber(warned, g, c);
        links::law_unlink_source(s.links(c), g);
        links::law_link_output(broken.links(c), g, ui);
        facts::lemma_insert_once(s.writers_of(g), c);
        assert(warned.links(c) == s.links(c));
        assert(apart.links(c) == s.links(c));
        assert(broken.has_effect(c) == s.has_effect(c));
        assert forall|h: SignalId, x: EffectId| #[trigger]
            r.subscribers(h).contains(x) <==> s.subscribers(h).contains(x) && !(h == g && x == c
                && s.has_source(c, g)) by {
            assert(r.subscribers(h) == broken.subscribers(h));
            assert(warned.subscribers(h) == s.subscribers(h));
            if s.has_source(c, g) {
                assert(cut.subscribers(h) == apart.subscribers(h));
                assert(apart.subscribers(h).contains(x) <==> warned.subscribers(h).contains(x)
                    && !(h == g && x == c));
            }
        }
        assert forall|x: EffectId, h: SignalId| #[trigger]
            r.has_source(x, h) <==> s.has_source(x, h) && !(x == c && h == g) by {
            if x == c {
                if s.has_effect(c) {
                    assert(r.links(c) == model::link_output(broken.links(c), g, ui));
                    assert(model::reads(r.links(c), h) <==> model::reads(
                        broken.links(c),
                        h,
                    ));
                }
            } else {
                assert(r.has_effect(x) == s.has_effect(x));
            }
        }
        assert forall|h: SignalId|
            s.has_effect(c) implies (#[trigger] links::writes(r.links(c), h) <==> links::writes(
            s.links(c),
            h,
        ) || h == g) by {
            assert(links::writes(broken.links(c), h) <==> links::writes(s.links(c), h));
        }
        assert forall|h: SignalId, x: EffectId| #[trigger]
            r.writers_of(h).contains(x) <==> s.writers_of(h).contains(x) || (h == g && x == c) by {
            assert(broken.writers_of(h) == s.writers_of(h));
        }
    }
}

/// An emit makes every subscriber Dirty that is not told to stay out: whoever is subscribed
/// to the signal before the emit, is not the current effect and lives on, is Dirty after it,
/// and pending if it was not Dirty before. Only an effect that is not told of changes from
/// the UI is left out, and only if the emit comes from there or UI updates are suppressed.
/// So an effect that changes a signal tells all its subscribers, just as others do.
pub proof fn law_emit_reaches_every_subscriber(
    s: State,
    g: SignalId,
    from_ui: bool,
    x: EffectId,
)
    requires
        s.wf(),
        s.subscribers(g).contains(x),
        s.local.current != Some(x),
        !((from_ui || s.local.suppress) && s.is_ui_only(x)),
        s.emit(g, from_ui).has_effect(x),
    ensures
        s.emit(g, from_ui).state_of(x) is Dirty,
        s.state_of(x) !is Dirty ==> s.emit(g, from_ui).pending.contains(x),
{
    let ui = s.counts_as_ui(from_ui);
    let r = s.register_writer(g, ui);
    let n = r.notify_subscribers(g, ui);
    let t = s.emit(g, from_ui);
    law_origin(s, from_ui);
    law_writer_is_noted(s, g, ui);
    valid::lemma_register_writer(s, g, ui);
    assert(r.subscribers(g).contains(x));
    assert(t.has_effect(x) == n.has_effect(x));
    push::lemma_notify_list(r, r.subscribers(g), ui);
    assert(r.has_effect(x));
    assert(s.has_effect(x));
    assert(r.effect(x) == s.effect(x));
    assert(r.is_ui_only(x) == s.is_ui_only(x));
    law_notify_reaches_every_subscriber(r, g, ui, x);
    assert(t.state_of(x) == n.state_of(x));
}

/// An emit makes nobody else Dirty; whoever is gone after it descends from a subscriber that
/// was told; who lives on keeps its subscriptions, its parent and all but its state, and
/// comes to be pending only if that changes; only the current effect may have a new link. No activity begins, and the thread is otherwise
/// as it was, but for what is scheduled and reported.
pub proof fn law_emit_spares_others(s: State, g: SignalId, from_ui: bool)
    requires
        s.wf(),
    ensures
        ({
            let t = s.emit(g, from_ui);
            let ui = from_ui || s.local.suppress;
            &&& forall|e: EffectId| #[trigger]
                t.has_effect(e) ==> s.has_effect(e) && t.effect(e) == (EffectModel {
                    state: t.state_of(e),
                    signals: if s.local.current == Some(e) {
                        t.links(e)
                    } else {
                        s.links(e)
                    },
                    ..s.effect(e)
                })
            &&& forall|e: EffectId| #[trigger]
                t.has_effect(e) && t.state_of(e) is Dirty && s.state_of(e) !is Dirty
                    ==> s.subscribers(g).contains(e) && !(ui && s.is_ui_only(e))
            &&& forall|e: EffectId|
                s.has_effect(e) && !#[trigger] t.has_effect(e) ==> destroyed_by(s, g, ui, e)
            &&& forall|h: SignalId| #[trigger] t.has_signal(h) <==> s.has_signal(h)
            &&& forall|h: SignalId, e: EffectId|
                t.has_effect(e) && !(h == g && s.local.current == Some(e)) ==> (
                #[trigger] t.subscribers(h).contains(e) <==> s.subscribers(h).contains(e))
            &&& forall|h: SignalId, e: EffectId|
                t.has_effect(e) ==> (#[trigger] t.writers_of(h).contains(e) <==> s.writers_of(
                    h,
                ).contains(e) || (h == g && s.local.current == Some(e)))
            &&& forall|e: EffectId|
                t.has_effect(e) ==> (#[trigger] t.parents.contains_key(e)
                    <==> s.parents.contains_key(e))
            &&& forall|e: EffectId|
                t.has_effect(e) && #[trigger] t.parents.contains_key(e) ==> t.parents[e]
                    == s.parents[e]
            &&& forall|e: EffectId| #[trigger] pending_if_marked(s, t, e)
            &&& t.signal_gens == s.signal_gens
            &&& t.active == s.active
            &&& t.attached == s.attached
            &&& t.local == (LocalModel {
                scheduled: t.local.scheduled,
                warning: t.local.warning,
                ..s.local
            })
        }),
{
    let ui = s.counts_as_ui(from_ui);
    let r = s.register_writer(g, ui);
    let n = r.notify_subscribers(g, ui);
    let t = s.emit(g, from_ui);
    law_origin(s, from_ui);
    law_writer_is_noted(s, g, ui);
    valid::lemma_register_writer(s, g, ui);
    law_notify_spares_others(r, g, ui);
    push::lemma_notify_list(r, r.subscribers(g), ui);
    assert forall|e: EffectId| #[trigger] t.has_effect(e) == n.has_effect(e) by {}
    assert forall|e: EffectId| #[trigger] t.state_of(e) == n.state_of(e) by {}
    assert forall|h: SignalId| #[trigger] t.subscribers(h) == n.subscribers(h) by {}
    assert forall|h: SignalId| #[trigger] t.writers_of(h) == n.writers_of(h) by {}
    assert forall|e: EffectId| #[trigger] t.has_effect(e) implies s.has_effect(e) && t.effect(e)
        == (EffectModel {
        state: t.state_of(e),
        signals: if s.local.current == Some(e) {
            t.links(e)
        } else {
            s.links(e)
        },
        ..s.effect(e)
    }) by {
        assert(n.has_effect(e));
        assert(r.has_effect(e));
    }
    assert forall|e: EffectId| #[trigger]
        t.has_effect(e) && t.state_of(e) is Dirty && s.state_of(e) !is Dirty implies s.subscribers(
        g,
    ).contains(e) && !(ui && s.is_ui_only(e)) by {
        assert(n.has_effect(e));
        assert(r.has_effect(e));
        assert(r.state_of(e) == s.state_of(e));
        assert(r.subscribers(g).contains(e));
        assert(r.is_ui_only(e) == s.is_ui_only(e));
    }
    assert forall|e: EffectId|
        s.has_effect(e) && !#[trigger] t.has_effect(e) implies destroyed_by(s, g, ui, e) by {
        assert(r.has_effect(e) && !n.has_effect(e));
        assert(destroyed_by(r, g, ui, e));
        let x = choose|x: EffectId|
            r.subscribers(g).contains(x) && !(ui && r.is_ui_only(x)) && #[trigger] tree::descends(
                r.children,
                x,
                e,
            );
        assert(s.subscribers(g).contains(x));
        assert(r.has_effect(x) == s.has_effect(x));
        assert(tree::descends(s.children, x, e));
    }
    assert forall|h: SignalId, e: EffectId|
        t.has_effect(e) && !(h == g && s.local.current == Some(e)) implies (
    #[trigger] t.subscribers(h).contains(e) <==> s.subscribers(h).contains(e)) by {
        assert(n.has_effect(e));
        assert(n.subscribers(h).contains(e) <==> r.subscribers(h).contains(e));
    }
    assert forall|h: SignalId, e: EffectId| t.has_effect(e) implies (#[trigger] t.writers_of(
        h,
    ).contains(e) <==> s.writers_of(h).contains(e) || (h == g && s.local.current == Some(e))) by {
        assert(n.has_effect(e));
        assert(n.writers_of(h).contains(e) <==> r.writers_of(h).contains(e));
    }
    assert forall|e: EffectId| t.has_effect(e) implies (#[trigger] t.parents.contains_key(e)
        <==> s.parents.contains_key(e)) by {
        assert(n.has_effect(e));
        assert(n.parents.contains_key(e) <==> r.parents.contains_key(e));
    }
    assert forall|h: SignalId| #[trigger] t.has_signal(h) <==> s.has_signal(h) by {
        assert(n.has_signal(h) == r.has_signal(h));
    }
    assert forall|e: EffectId|
        t.has_effect(e) && #[trigger] t.parents.contains_key(e) implies t.parents[e]
        == s.parents[e] by {
        assert(n.has_effect(e));
        assert(n.parents.contains_key(e));
    }
    assert forall|e: EffectId| #[trigger] pending_if_marked(s, t, e) by {
        assert(pending_if_marked(r, n, e));
        if t.has_effect(e) {
            assert(n.has_effect(e));
            assert(r.has_effect(e));
            assert(r.state_of(e) == s.state_of(e));
        }
    }
}

/// An emit outside of transactions and effects schedules processing and wakes the effect
/// loop, if there is one.
pub proof fn law_emit_wakes_the_loop(s: State, g: SignalId, from_ui: bool)
    requires
        s.wf(),
    ensures
        s.local.depth == 0 && s.local.current is None ==> s.emit(g, from_ui).local.scheduled
            && s.emit(g, from_ui).notice == (s.notice || s.attached),
        !(s.local.depth == 0 && s.local.current is None) ==> s.emit(g, from_ui).local.scheduled
            == s.local.scheduled && s.emit(g, from_ui).notice == s.notice,
{
    let ui = s.counts_as_ui(from_ui);
    let r = s.register_writer(g, ui);
    law_writer_is_noted(s, g, ui);
    valid::lemma_register_writer(s, g, ui);
    law_notify_spares_others(r, g, ui);
}

/// An emit reaches all that depends on the signal, however far down: along a chain that
/// begins with a subscriber that is told, where each depends on the one before it and was
/// Clean, nobody is Clean after it.
pub proof fn law_emit_reaches_downstream(
    s: State,
    g: SignalId,
    from_ui: bool,
    p: Seq<EffectId>,
    i: int,
)
    requires
        s.wf(),
        p.len() >= 2,
        s.subscribers(g).contains(p[0]),
        s.local.current != Some(p[0]),
        !((from_ui || s.local.suppress) && s.is_ui_only(p[0])),
        push::chain(s.emit(g, from_ui), p),
        forall|k: int|
            1 <= k < p.len() ==> s.state_of(#[trigger] p[k]) is Clean && s.emit(
                g,
                from_ui,
            ).has_effect(p[k]),
        1 <= i < p.len(),
    ensures
        s.emit(g, from_ui).state_of(p[i]) !is Clean,
{
    let ui = s.counts_as_ui(from_ui);
    let r = s.register_writer(g, ui);
    let n = r.notify_subscribers(g, ui);
    let t = s.emit(g, from_ui);
    law_origin(s, from_ui);
    law_writer_is_noted(s, g, ui);
    valid::lemma_register_writer(s, g, ui);
    assert(r.subscribers(g).contains(p[0]));
    assert(r.is_ui_only(p[0]) == s.is_ui_only(p[0])) by {
        assert(r.has_effect(p[0]) == s.has_effect(p[0]));
    }
    assert(push::told(r, r.subscribers(g), ui, p[0]));
    assert(push::chain(n, p)) by {
        assert forall|k: int| 0 <= k < p.len() - 1 implies n.successors(#[trigger] p[k]).contains(
            p[k + 1],
        ) by {
            facts::lemma_same_successors(n, t, p[k]);
            assert(t.successors(p[k]).contains(p[k + 1]));
        }
    }
    assert forall|k: int| 1 <= k < p.len() implies r.state_of(#[trigger] p[k]) is Clean
        && n.has_effect(p[k]) by {
        assert(s.state_of(p[k]) is Clean);
        assert(t.has_effect(p[k]) == n.has_effect(p[k]));
        assert(r.has_effect(p[k]) == s.has_effect(p[k]));
    }
    push::law_notify_reaches_downstream(r, r.subscribers(g), ui, p, i);
    assert(t.state_of(p[i]) == n.state_of(p[i]));
}

// ---------------------------------------------------------------------------
// Check marks
// ---------------------------------------------------------------------------

/// A Check mark on an effect that is not Clean changes nothing. One that is Clean is Check
/// and pending, and comes before all that it makes pending besides; what was pending before
/// keeps its place. A stale effect is only made pending. Whoever else comes to be pending was
/// Clean. Nothing but states and the pending set changes.
pub proof fn law_check(s: State, e: EffectId)
    ensures
        ({
            let t = s.check_effect(e);
            &&& t == (State { effects: t.effects, pending: t.pending, ..s })
            &&& s.state_of(e) !is Clean ==> t == s
            &&& s.state_of(e) is Clean ==> t.pending.contains(e)
            &&& s.has_effect(e) && s.state_of(e) is Clean ==> t.effect(e) == (EffectModel {
                state: ReactiveState::Check,
                ..s.effect(e)
            })
            &&& !s.has_effect(e) ==> t.effects == s.effects && t.pending.len() <= s.pending.len()
                + 1
            &&& s.state_of(e) is Clean && !s.pending.contains(e) ==> t.pending.len()
                > s.pending.len() && t.pending[s.pending.len() as int] == e
            &&& s.pending.is_prefix_of(t.pending)
            &&& forall|x: EffectId| #[trigger]
                t.pending.contains(x) ==> s.pending.contains(x) || s.state_of(x) is Clean
        }),
{
    let t = s.check_effect(e);
    lemma_check_appends(s, e);
    facts::lemma_check_effect(s, e);
    if s.state_of(e) is Clean {
        let one = s.mark_check_one(e);
        facts::lemma_insert_once(s.pending, e);
        if s.has_effect(e) {
            facts::lemma_check_list(one, s.successors(e));
            lemma_check_list_appends(one, s.successors(e));
            assert(one.pending.is_prefix_of(t.pending));
            assert(one.pending.contains(e));
            let j = one.pending.index_of(e);
            assert(t.pending.subrange(0, one.pending.len() as int)[j] == e);
            assert(t.pending[j] == e);
            if !s.pending.contains(e) {
                assert(one.pending[s.pending.len() as int] == e);
                assert(t.pending.subrange(0, one.pending.len() as int)[s.pending.len() as int] == e);
            }
            assert(facts::slot_checked(one.effects[e.0 as int], t.effects[e.0 as int]));
        } else {
            if !s.pending.contains(e) {
                assert(t.pending[s.pending.len() as int] == e);
            }
        }
    }
}

/// `x` comes to be pending only if it is stale or marked.
pub open spec fn pending_if_marked(s: State, t: State, x: EffectId) -> bool {
    t.pending.contains(x) && !s.pending.contains(x) ==> !t.has_effect(x) || t.state_of(x)
        != s.state_of(x)
}

/// Check marks come after what is pending.
proof fn lemma_check_appends(s: State, e: EffectId)
    ensures
        s.pending.is_prefix_of(s.check_effect(e).pending),
        forall|x: EffectId| #[trigger]
            s.check_effect(e).pending.contains(x) ==> s.pending.contains(x) || s.state_of(x) is Clean,
        forall|x: EffectId| #[trigger] pending_if_marked(s, s.check_effect(e), x),
    decreases model::spread::clean_count(s.effects), 0nat,
{
    let t = s.check_effect(e);
    if s.state_of(e) is Clean {
        let one = s.mark_check_one(e);
        parts::law_insert_once(s.pending, e);
        facts::lemma_insert_once(s.pending, e);
        if s.has_effect(e) {
            model::spread::lemma_clean_count_update(
                s.effects,
                e.0 as int,
                Some(EffectModel { state: ReactiveState::Check, ..s.effect(e) }),
            );
            lemma_check_list_appends(one, s.successors(e));
            facts::lemma_check_list(one, s.successors(e));
            lemma_prefix(s.pending, one.pending, t.pending);
            assert forall|x: EffectId| #[trigger] t.pending.contains(x) implies s.pending.contains(
                x,
            ) || s.state_of(x) is Clean by {
                assert(one.pending.contains(x) || one.state_of(x) is Clean);
            }
            assert forall|x: EffectId| #[trigger] pending_if_marked(s, t, x) by {
                assert(pending_if_marked(one, t, x));
                if t.pending.contains(x) && !s.pending.contains(x) && t.has_effect(x) {
                    assert(facts::slot_checked(one.effects[x.0 as int], t.effects[x.0 as int]));
                    if x == e {
                        assert(one.state_of(e) is Check);
                    } else {
                        assert(!one.pending.contains(x));
                        assert(one.state_of(x) == s.state_of(x));
                    }
                }
            }
        }
    } else {
        assert(s.pending =~= s.pending.subrange(0, s.pending.len() as int));
    }
}

/// As `lemma_check_appends`, for each effect of a list in turn.
proof fn lemma_check_list_appends(s: State, list: Seq<EffectId>)
    ensures
        s.pending.is_prefix_of(s.check_list(list).pending),
        forall|x: EffectId| #[trigger]
            s.check_list(list).pending.contains(x) ==> s.pending.contains(x) || s.state_of(
                x,
            ) is Clean,
        forall|x: EffectId| #[trigger] pending_if_marked(s, s.check_list(list), x),
    decreases model::spread::clean_count(s.effects), list.len(),
{
    let t = s.check_list(list);
    if list.len() > 0 {
        let next = s.check_effect(list[0]);
        facts::lemma_check_effect(s, list[0]);
        facts::lemma_check_list(next, list.drop_first());
        lemma_check_appends(s, list[0]);
        lemma_check_list_appends(next, list.drop_first());
        lemma_prefix(s.pending, next.pending, t.pending);
        assert forall|x: EffectId| #[trigger] t.pending.contains(x) implies s.pending.contains(x)
            || s.state_of(x) is Clean by {
            assert(next.pending.contains(x) || next.state_of(x) is Clean);
            if next.state_of(x) is Clean && s.has_effect(x) {
                assert(facts::slot_checked(s.effects[x.0 as int], next.effects[x.0 as int]));
            }
        }
        assert forall|x: EffectId| #[trigger] pending_if_marked(s, t, x) by {
            assert(pending_if_marked(s, next, x));
            assert(pending_if_marked(next, t, x));
            if t.has_effect(x) {
                assert(facts::slot_checked(next.effects[x.0 as int], t.effects[x.0 as int]));
                assert(facts::slot_checked(s.effects[x.0 as int], next.effects[x.0 as int]));
            }
        }
    } else {
        assert(s.pending =~= s.pending.subrange(0, s.pending.len() as int));
    }
}

/// To tell a list of effects of a change makes nobody pending who is neither stale nor
/// marked.
pub proof fn lemma_notify_pending(s: State, list: Seq<EffectId>, from_ui: bool)
    requires
        s.wf(),
    ensures
        forall|x: EffectId| #[trigger] pending_if_marked(s, s.notify_list(list, from_ui), x),
    decreases list.len(),
{
    if list.len() > 0 {
        let rest = list.drop_first();
        let t = s.notify_list(list, from_ui);
        if from_ui && s.is_ui_only(list[0]) {
            lemma_notify_pending(s, rest, from_ui);
        } else {
            let e = list[0];
            let marked = s.mark_pending(e);
            let next = s.notify_one(e);
            law_invalidate(s, e);
            push::lemma_mark_pending_pushed(s, e);
            push::lemma_check_list_pushed(marked, marked.successors(e));
            lemma_check_list_appends(marked, marked.successors(e));
            push::lemma_notify_list(next, rest, from_ui);
            lemma_notify_pending(next, rest, from_ui);
            assert forall|x: EffectId| #[trigger] pending_if_marked(s, t, x) by {
                assert(pending_if_marked(marked, next, x));
                assert(pending_if_marked(next, t, x));
                if t.pending.contains(x) && !s.pending.contains(x) && t.has_effect(x) {
                    assert(next.has_effect(x));
                    assert(marked.has_effect(x));
                    assert(graph::rank(s.state_of(x)) <= graph::rank(marked.state_of(x)));
                    assert(graph::rank(marked.state_of(x)) <= graph::rank(next.state_of(x)));
                    assert(graph::rank(next.state_of(x)) <= graph::rank(t.state_of(x)));
                    if marked.pending.contains(x) {
                        assert(x == e);
                        assert(marked.state_of(e) is Dirty);
                    }
                }
            }
        }
    }
}

/// What comes before something comes before what comes after that.
proof fn lemma_prefix(a: Seq<EffectId>, b: Seq<EffectId>, c: Seq<EffectId>)
    requires
        a.is_prefix_of(b),
        b.is_prefix_of(c),
    ensures
        a.is_prefix_of(c),
{
    assert(a =~= c.subrange(0, a.len() as int)) by {
        assert forall|i: int| 0 <= i < a.len() implies a[i] == #[trigger] c[i] by {
            assert(b.subrange(0, a.len() as int)[i] == b[i]);
            assert(c.subrange(0, b.len() as int)[i] == c[i]);
        }
    }
}

/// To mark one effect is to mark a list with nobody else in it, and to mark two lists is to
/// mark one after the other.
pub proof fn law_check_one_by_one(s: State, e: EffectId, a: Seq<EffectId>, b: Seq<EffectId>)
    ensures
        s.check_list(seq![e]) == s.check_effect(e),
        s.check_list(a + b) == s.check_list(a).check_list(b),
        s.check_list(Seq::empty()) == s,
{
    facts::lemma_check_list_step(s, seq![e]);
    assert(seq![e].drop_first() =~= Seq::<EffectId>::empty());
    facts::lemma_check_list_add(s, a, b);
}

// ---------------------------------------------------------------------------
// Order
// ---------------------------------------------------------------------------

/// Subscribers are told in order: to tell two lists is to tell one after the other.
pub proof fn law_notify_in_order(s: State, a: Seq<EffectId>, b: Seq<EffectId>, from_ui: bool)
    ensures
        s.notify_list(a + b, from_ui) == s.notify_list(a, from_ui).notify_list(b, from_ui),
        s.notify_list(Seq::empty(), from_ui) == s,
    decreases a.len(),
{
    if a.len() == 0 {
        assert(a + b =~= b);
    } else {
        assert((a + b)[0] == a[0]);
        assert((a + b).drop_first() =~= a.drop_first() + b);
        if from_ui && s.is_ui_only(a[0]) {
            law_notify_in_order(s, a.drop_first(), b, from_ui);
        } else {
            law_notify_in_order(s.notify_one(a[0]), a.drop_first(), b, from_ui);
        }
    }
}

/// Who is told comes to be pending before those who depend on it, and after all who were
/// pending before, unless it has children, which are gone.
pub proof fn law_told_comes_first(s: State, e: EffectId)
    requires
        s.wf(),
        !s.children.contains_key(e),
        s.has_effect(e),
        s.state_of(e) !is Dirty,
        !s.pending.contains(e),
    ensures
        ({
            let t = s.notify_list(seq![e], false);
            &&& s.pending.is_prefix_of(t.pending)
            &&& t.pending.len() > s.pending.len()
            &&& t.pending[s.pending.len() as int] == e
        }),
{
    let marked = s.mark_pending(e);
    let next = s.notify_one(e);
    let t = s.notify_list(seq![e], false);
    assert(seq![e].drop_first() =~= Seq::<EffectId>::empty());
    assert(seq![e][0] == e);
    assert(t == next.notify_list(seq![e].drop_first(), false));
    assert(t == next);
    let d = s.set_state(e, ReactiveState::Dirty);
    assert(d.destroy_children(e) == d) by {
        assert(d.descendants(e) =~= Seq::<EffectId>::empty());
    }
    assert(marked.pending == model::insert_once(s.pending, e));
    parts::law_insert_once(s.pending, e);
    lemma_check_list_appends(marked, marked.successors(e));
    lemma_prefix(s.pending, marked.pending, t.pending);
    assert(marked.pending[s.pending.len() as int] == e);
    assert(t.pending.subrange(0, marked.pending.len() as int)[s.pending.len() as int] == e);
}

/// Those who depend on an effect come link by link, in order: of each signal that it writes,
/// the subscribers.
pub proof fn law_successors_link_by_link(s: State, e: EffectId, l: model::Link)
    requires
        s.has_effect(e),
    ensures
        s.put_links(e, Seq::empty()).successors(e) == Seq::<EffectId>::empty(),
        s.put_links(e, s.links(e).push(l)).successors(e) == s.successors(e) + if l.1.is_output {
            s.subscribers(l.0)
        } else {
            Seq::empty()
        },
{
    let none = s.put_links(e, Seq::empty());
    let t = s.put_links(e, s.links(e).push(l));
    let of = |o: SignalId| s.subscribers(o);
    let of_none = |o: SignalId| none.subscribers(o);
    let of_t = |o: SignalId| t.subscribers(o);
    assert forall|o: SignalId| #[trigger] none.subscribers(o) == s.subscribers(o) by {}
    assert forall|o: SignalId| #[trigger] t.subscribers(o) == s.subscribers(o) by {}
    assert(of =~= of_none);
    assert(of =~= of_t);
    assert(none.links(e) =~= Seq::<model::Link>::empty());
    lists::lemma_no_links();
    facts::lemma_no_successors(s);
    assert(t.links(e) == s.links(e).push(l));
    assert(s.links(e).push(l) =~= s.links(e) + seq![l]);
    links::law_signals_link_by_link(s.links(e), seq![l], l);
    if l.1.is_output {
        assert(t.outputs(e) =~= s.outputs(e).push(l.0));
        facts::lemma_readers_push(s, s.outputs(e), l.0);
    } else {
        assert(t.outputs(e) =~= s.outputs(e));
        assert(t.successors(e) =~= s.successors(e) + Seq::empty());
    }
}

} // verus!
