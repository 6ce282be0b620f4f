//! What comes into being, under whom, and what it takes along when it goes.
use vstd::prelude::*;

use crate::arena::effect_arena::EffectFn;
use crate::arena::effect_arena::EffectId;
use crate::arena::signal_arena::SignalId;
use crate::computed;
use crate::computed::Computed;
use crate::laws::links;
use crate::laws::tree;
use crate::laws::valid;
use crate::lists;
use crate::model;
use crate::model::facts;
use crate::model::EffectModel;
use crate::model::FrameModel;
use crate::model::LocalModel;
use crate::model::RunKind;
use crate::model::State;
use crate::runtime::Action;

verus! {

// ---------------------------------------------------------------------------
// New effects
// ---------------------------------------------------------------------------

/// A new node is Clean and related to no signal; it has the callback and the two properties
/// that it was made with.
pub proof fn law_fresh_node(callback: Option<EffectFn>, skippable: bool, ui_only: bool)
    ensures
        ({
            let m = EffectModel::fresh(callback, skippable, ui_only);
            &&& m.state is Clean
            &&& m.callback == callback
            &&& m.skippable == skippable
            &&& m.ui_only == ui_only
            &&& m.signals == Seq::<model::Link>::empty()
        }),
{
}

/// A new effect has the current one as its parent, if there is one, and comes last among its
/// children. Nobody else's parent or children change, nothing comes to be pending or
/// subscribed, and nothing begins.
pub proof fn law_create_touches_nothing_else(s: State, key: nat, e: EffectId, m: EffectModel)
    ensures
        ({
            let t = s.create(key, e, m);
            &&& t == (State {
                effects: t.effects,
                parents: t.parents,
                children: t.children,
                ..s
            })
            &&& match s.local.current {
                Some(p) => {
                    &&& t.parents.contains_key(e)
                    &&& t.parents[e] == p
                    &&& t.children_of(p) == s.children_of(p).push(e)
                    &&& forall|x: EffectId|
                        x != p ==> #[trigger] t.children_of(x) == s.children_of(x)
                    &&& forall|x: EffectId|
                        x != e ==> (#[trigger] t.parents.contains_key(x)
                            <==> s.parents.contains_key(x))
                    &&& forall|x: EffectId|
                        x != e && #[trigger] s.parents.contains_key(x) ==> t.parents[x]
                            == s.parents[x]
                },
                None => t.parents == s.parents && t.children == s.children,
            }
        }),
{
}

/// A new effect runs at once: the first step after its creation hands its callback out. It is
/// the current effect then, and has forgotten nothing, for there was nothing.
pub proof fn law_new_effect_runs_at_once(
    s: State,
    key: usize,
    e: EffectId,
    f: EffectFn,
    skippable: bool,
    ui_only: bool,
)
    requires
        s.vacant_effect(key as nat),
        key <= u32::MAX,
        e == s.effect_at(key as u32),
    ensures
        ({
            let made = s.create(
                key as nat,
                e,
                EffectModel::fresh(Some(f), skippable, ui_only),
            ).start(e, RunKind::Now);
            let (t, action) = made.step();
            &&& action == Action::Run(e, f)
            &&& t.local.current == Some(e)
            &&& t.has_effect(e)
            &&& t.state_of(e) is Clean
            &&& t.is_skippable(e) == skippable
            &&& t.is_ui_only(e) == ui_only
            &&& t.links(e).len() == 0
            &&& t.pending == s.pending
            &&& t.writers == s.writers
        }),
{
    let created = s.create(key as nat, e, EffectModel::fresh(Some(f), skippable, ui_only));
    let made = created.start(e, RunKind::Now);
    assert(made.pop_frame().local.frames =~= created.local.frames);
    assert(made.pop_frame() == created);
    assert(created.has_effect(e));
    let (t, action) = created.begin_run(e, RunKind::Now);
    assert(made.step() == (t, action));
    lemma_first_run(created, e);
    lists::lemma_no_links();
    assert(created.links(e) =~= Seq::<model::Link>::empty());
}

/// What precedes the first run of an effect.
proof fn lemma_first_run(s: State, e: EffectId)
    requires
        s.has_callback(e),
    ensures
        ({
            let (t, action) = s.begin_run(e, RunKind::Now);
            &&& action == Action::Run(e, s.effect(e).callback->0)
            &&& t.local.current == Some(e)
            &&& t.has_effect(e)
            &&& t.effect(e) == (EffectModel {
                callback: None,
                signals: model::unlink_sources(s.links(e)),
                ..s.effect(e)
            })
            &&& t.pending == s.pending
            &&& t.writers == s.writers
        }),
{
    let off = s.unsubscribe(e);
    assert(off.effects == s.effects);
    let cleared = off.clear_sources(e);
    assert(cleared.has_effect(e));
}

// ---------------------------------------------------------------------------
// New computed values
// ---------------------------------------------------------------------------

/// A computed value that is created while an effect runs is its child, lazy or not: the
/// effect is its parent, and it comes last among the children of that one. Where no effect
/// runs it has no parent. Nobody else's parent or children change.
pub proof fn law_computed_is_a_child(
    s: State,
    signal_key: nat,
    effect_key: nat,
    g: SignalId,
    e: EffectId,
    m: EffectModel,
    lazy: bool,
)
    ensures
        ({
            let t = s.create_computed(signal_key, effect_key, g, e, m, lazy);
            match s.local.current {
                Some(p) => {
                    &&& t.parents.contains_key(e)
                    &&& t.parents[e] == p
                    &&& t.children_of(p) == s.children_of(p).push(e)
                    &&& t.children_of(p).contains(e)
                    &&& forall|x: EffectId|
                        x != p ==> #[trigger] t.children_of(x) == s.children_of(x)
                    &&& forall|x: EffectId|
                        x != e ==> (#[trigger] t.parents.contains_key(x)
                            <==> s.parents.contains_key(x))
                    &&& forall|x: EffectId|
                        x != e && #[trigger] s.parents.contains_key(x) ==> t.parents[x]
                            == s.parents[x]
                },
                None => t.parents == s.parents && t.children == s.children,
            }
        }),
{
    let t = s.create_computed(signal_key, effect_key, g, e, m, lazy);
    if let Some(p) = s.local.current {
        assert(t.children_of(p)[s.children_of(p).len() as int] == e);
    }
}

/// So it is gone, and nothing notifies it any more, once the effect that created it is
/// marked to run again.
pub proof fn law_computed_dies_with_its_parent(
    s: State,
    signal_key: nat,
    effect_key: usize,
    g: SignalId,
    e: EffectId,
    m: EffectModel,
    lazy: bool,
    p: EffectId,
)
    requires
        s.wf(),
        s.vacant_signal(signal_key),
        s.vacant_effect(effect_key as nat),
        effect_key <= u32::MAX,
        e == s.effect_at(effect_key as u32),
        s.local.current == Some(p),
        s.has_effect(p),
        s.state_of(p) !is Dirty,
    ensures
        ({
            let t = s.create_computed(signal_key, effect_key as nat, g, e, m, lazy);
            &&& t.has_effect(e)
            &&& !t.mark_pending(p).has_effect(e)
            &&& !t.mark_pending(p).pending.contains(e)
            &&& t.anchored() ==> forall|h: SignalId|
                !#[trigger] t.mark_pending(p).subscribers(h).contains(e)
        }),
{
    let t = s.create_computed(signal_key, effect_key as nat, g, e, m, lazy);
    valid::law_create_computed_keeps_validity(s, signal_key, effect_key as nat, g, e, m, lazy);
    law_computed_is_a_child(s, signal_key, effect_key as nat, g, e, m, lazy);
    assert(e != p);
    assert(e.0 != p.0);
    assert(t.has_effect(p) && t.effect(p) == s.effect(p));
    assert(t.can_mark(p));
    tree::law_children_die_with_parent(t, p, e);
}

/// A new computed value is a signal without subscribers and an effect that writes it, with
/// the callback and the properties it was made with. A lazy one is Dirty, and nothing begins;
/// the first computation of any other begins at once. Nothing else changes: no signal and no
/// effect that was there before, no other writer, and nothing comes to be pending.
pub proof fn law_new_computed(
    s: State,
    signal_key: usize,
    effect_key: usize,
    g: SignalId,
    e: EffectId,
    m: EffectModel,
    lazy: bool,
)
    requires
        s.vacant_signal(signal_key as nat),
        s.vacant_effect(effect_key as nat),
        signal_key <= u32::MAX,
        effect_key <= u32::MAX,
        g == s.signal_at(signal_key as u32),
        e == s.effect_at(effect_key as u32),
    ensures
        ({
            let t = s.create_computed(signal_key as nat, effect_key as nat, g, e, m, lazy);
            &&& t.has_signal(g) && !s.has_signal(g)
            &&& t.subscribers(g) == Seq::<EffectId>::empty()
            &&& t.has_effect(e) && !s.has_effect(e)
            &&& t.effect(e).callback == m.callback
            &&& t.effect(e).skippable == m.skippable
            &&& t.effect(e).ui_only == m.ui_only
            &&& forall|h: SignalId| !#[trigger] t.has_source(e, h)
            &&& forall|h: SignalId| #[trigger] links::writes(t.links(e), h) <==> h == g
            &&& lazy ==> t.state_of(e) is Dirty && t.local == s.local
            &&& !lazy ==> t.state_of(e) == m.state && t.local == (LocalModel {
                frames: s.local.frames.push(
                    FrameModel::Start { effect: e, kind: RunKind::Initial },
                ),
                ..s.local
            })
            &&& forall|h: SignalId|
                h != g ==> (#[trigger] t.has_signal(h) <==> s.has_signal(h)) && t.subscribers(h)
                    == s.subscribers(h)
            &&& forall|x: EffectId|
                x != e ==> (#[trigger] t.has_effect(x) <==> s.has_effect(x))
            &&& forall|x: EffectId| x != e && #[trigger] s.has_effect(x) ==> t.effect(x) == s.effect(x)
            &&& forall|h: SignalId, x: EffectId| #[trigger]
                t.writers_of(h).contains(x) <==> s.writers_of(h).contains(x) || (h == g && x == e)
            &&& t.pending == s.pending
            &&& t.signal_gens == s.signal_gens
            &&& t.effect_gens == s.effect_gens
            &&& t.active == s.active
            &&& t.attached == s.attached
            &&& t.notice == s.notice
        }),
{
    let t = s.create_computed(signal_key as nat, effect_key as nat, g, e, m, lazy);
    facts::lemma_insert_once(s.writers_of(g), e);
    assert(t.links(e) == seq![model::own_link(g)]);
    assert forall|h: SignalId| #[trigger] links::writes(t.links(e), h) <==> h == g by {
        if h == g {
            assert(t.links(e)[0].0 == g && t.links(e)[0].1.is_output);
        }
    }
    assert forall|h: SignalId, x: EffectId| #[trigger]
        t.writers_of(h).contains(x) <==> s.writers_of(h).contains(x) || (h == g && x == e) by {
        if h != g {
            assert(t.writers_of(h) == s.writers_of(h));
        }
    }
}

/// The first computation of a value that is not lazy begins at once: the first step hands
/// its callback out, and what that reads becomes a source of the value.
pub proof fn law_new_computed_is_computed_at_once(
    s: State,
    signal_key: nat,
    effect_key: usize,
    g: SignalId,
    e: EffectId,
    f: EffectFn,
    skippable: bool,
)
    requires
        s.vacant_effect(effect_key as nat),
        effect_key <= u32::MAX,
        e == s.effect_at(effect_key as u32),
    ensures
        ({
            let made = s.create_computed(
                signal_key,
                effect_key as nat,
                g,
                e,
                EffectModel::fresh(Some(f), skippable, false),
                false,
            );
            let (t, action) = made.step();
            &&& action == Action::Run(e, f)
            &&& t.local.current == Some(e)
            &&& t.state_of(e) is Clean
            &&& t.links(e) == made.links(e)
        }),
{
    let made = s.create_computed(
        signal_key,
        effect_key as nat,
        g,
        e,
        EffectModel::fresh(Some(f), skippable, false),
        false,
    );
    assert(made.has_effect(e));
    assert(made.pop_frame().has_effect(e));
}

/// What the functions that make a computed value promise: the value is not there yet; its
/// signal and its effect are, the one without subscribers and the other with the callback, as
/// skippable as it was asked for and told of all changes. It is the writer of the signal, and
/// a child of the current effect, if there is one. A lazy one is Dirty and nothing begins;
/// of any other the first computation begins.
pub proof fn law_made<T>(
    s: State,
    t: State,
    c: Computed<T>,
    f: EffectFn,
    lazy: bool,
    skippable: bool,
)
    requires
        computed::made(s, t, c, f, lazy, skippable),
        s.signals.len() <= u32::MAX,
        s.effects.len() <= u32::MAX,
    ensures
        ({
            let g = s.signal_at(c.signal.slot);
            let e = c.effect.id;
            &&& c.value is None
            &&& !s.has_signal(g) && t.has_signal(g) && t.subscribers(g).len() == 0
            &&& g == t.signal_at(c.signal.slot)
            &&& !s.has_effect(e) && t.has_effect(e)
            &&& t.effect(e).callback == Some(f)
            &&& t.is_skippable(e) == skippable
            &&& !t.is_ui_only(e)
            &&& t.writers_of(g).contains(e)
            &&& forall|h: SignalId| !#[trigger] t.has_source(e, h)
            &&& t.pending == s.pending
            &&& lazy ==> t.state_of(e) is Dirty && t.local == s.local
            &&& !lazy ==> t.state_of(e) is Clean && t.step().1 == Action::Run(e, f)
            &&& s.local.current matches Some(p) ==> t.parents.contains_key(e) && t.parents[e] == p
                && t.children_of(p) == s.children_of(p).push(e)
            &&& s.local.current is None ==> t.parents == s.parents && t.children == s.children
        }),
{
    let g = s.signal_at(c.signal.slot);
    let e = c.effect.id;
    let m = EffectModel::fresh(Some(f), skippable, false);
    let (signal_key, effect_key) = choose|signal_key: usize, effect_key: usize|
        {
            &&& #[trigger] s.vacant_signal(signal_key as nat)
            &&& #[trigger] s.vacant_effect(effect_key as nat)
            &&& c.signal.slot == signal_key as u32
            &&& c.effect.id == s.effect_at(effect_key as u32)
            &&& t == s.create_computed(
                signal_key as nat,
                effect_key as nat,
                s.signal_at(c.signal.slot),
                c.effect.id,
                m,
                lazy,
            )
        };
    law_fresh_node(Some(f), skippable, false);
    law_new_computed(s, signal_key, effect_key, g, e, m, lazy);
    law_computed_is_a_child(s, signal_key as nat, effect_key as nat, g, e, m, lazy);
    if !lazy {
        law_new_computed_is_computed_at_once(
            s,
            signal_key as nat,
            effect_key,
            g,
            e,
            f,
            skippable,
        );
    }
}

// ---------------------------------------------------------------------------
// What goes
// ---------------------------------------------------------------------------

/// To give an effect up leaves everybody else alone, but for what descends from it where
/// nobody holds it: no state changes, no other subscription, no other pending effect, and
/// nothing of the thread.
pub proof fn law_dispose_effect_spares_others(s: State, e: EffectId)
    requires
        s.wf(),
    ensures
        ({
            let t = s.dispose_effect(e);
            let goes = s.has_effect(e) && !s.parents.contains_key(e);
            &&& forall|x: EffectId|
                x != e ==> (#[trigger] t.has_effect(x) <==> s.has_effect(x) && !(goes
                    && tree::descends(s.children, e, x)))
            &&& forall|x: EffectId|
                x != e && #[trigger] t.has_effect(x) ==> t.effect(x) == s.effect(x)
            &&& forall|x: EffectId|
                x != e ==> (#[trigger] t.pending.contains(x) <==> s.pending.contains(x) && !(goes
                    && tree::descends(s.children, e, x)))
            &&& forall|g: SignalId| #[trigger] t.has_signal(g) <==> s.has_signal(g)
            &&& forall|g: SignalId, x: EffectId|
                x != e && t.has_effect(x) ==> (#[trigger] t.subscribers(g).contains(x)
                    <==> s.subscribers(g).contains(x))
            &&& forall|g: SignalId, x: EffectId|
                x != e && t.has_effect(x) ==> (#[trigger] t.writers_of(g).contains(x)
                    <==> s.writers_of(g).contains(x))
            &&& s.has_effect(e) ==> forall|g: SignalId|
                s.outputs(e).contains(g) ==> !#[trigger] t.writers_of(g).contains(e)
            &&& !goes ==> t.parents == s.parents && t.children == s.children && t.effects
                == s.effects
            &&& goes ==> forall|x: EffectId|
                x != e && !tree::descends(s.children, e, x) ==> #[trigger] t.children_of(x)
                    == s.children_of(x)
            &&& goes ==> forall|x: EffectId|
                x != e && !tree::descends(s.children, e, x) ==> (#[trigger] t.parents.contains_key(
                    x,
                ) <==> s.parents.contains_key(x))
            &&& t.local == s.local
            &&& t.signal_gens == s.signal_gens
            &&& t.active == s.active
            &&& t.attached == s.attached
            &&& t.notice == s.notice
        }),
{
    let idle = s.pending_remove(e);
    let t = s.dispose_effect(e);
    facts::lemma_swap_removed(s.pending, e);
    if s.has_effect(e) {
        let off = idle.unsubscribe(e);
        let apart = off.unregister(e);
        tree::lemma_unsubscribe(idle, e);
        tree::lemma_unregistered(off, off.outputs(e), e);
        assert(off.outputs(e) == s.outputs(e));
        assert forall|g: SignalId, x: EffectId| x != e implies (#[trigger] apart.subscribers(
            g,
        ).contains(x) <==> s.subscribers(g).contains(x)) by {
            assert(apart.subscribers(g) == off.subscribers(g));
            assert(idle.subscribers(g) == s.subscribers(g));
            assert(off.subscribers(g).contains(x) <==> idle.subscribers(g).contains(x));
        }
        assert forall|g: SignalId, x: EffectId| x != e implies (#[trigger] apart.writers_of(
            g,
        ).contains(x) <==> s.writers_of(g).contains(x)) by {
            assert(off.writers_of(g) == s.writers_of(g));
        }
        assert forall|g: SignalId| #[trigger] apart.has_signal(g) <==> s.has_signal(g) by {
            assert(off.has_signal(g) <==> idle.has_signal(g));
        }
        assert forall|x: EffectId| #[trigger] apart.has_effect(x) <==> s.has_effect(x) by {}
        assert(forall|g: SignalId|
            s.outputs(e).contains(g) ==> !#[trigger] apart.writers_of(g).contains(e));
        assert(apart.wf());
        if !s.parents.contains_key(e) {
            let cut = apart.destroy_children(e);
            tree::law_destroy_children(apart, e);
            assert(t == cut.remove_effect(e));
            assert forall|x: EffectId| x != e implies (#[trigger] t.has_effect(x) <==> cut.has_effect(
                x,
            )) by {}
            assert forall|g: SignalId| #[trigger] t.subscribers(g) == cut.subscribers(g) by {}
            assert forall|g: SignalId| #[trigger] t.writers_of(g) == cut.writers_of(g) by {}
            assert forall|x: EffectId| x != e && #[trigger] t.has_effect(x) implies t.effect(x)
                == s.effect(x) by {
                assert(cut.has_effect(x));
                assert(cut.effect(x) == apart.effect(x));
            }
            assert forall|g: SignalId| #[trigger] t.has_signal(g) <==> s.has_signal(g) by {
                assert(cut.has_signal(g) <==> apart.has_signal(g));
            }
            assert forall|g: SignalId, x: EffectId|
                x != e && t.has_effect(x) implies (#[trigger] t.subscribers(g).contains(x)
                <==> s.subscribers(g).contains(x)) by {
                assert(cut.has_effect(x));
                if s.subscribers(g).contains(x) {
                    assert(apart.subscribers(g).contains(x));
                    assert(cut.subscribers(g).contains(x));
                }
                if cut.subscribers(g).contains(x) {
                    assert(apart.subscribers(g).contains(x));
                }
            }
            assert forall|g: SignalId, x: EffectId|
                x != e && t.has_effect(x) implies (#[trigger] t.writers_of(g).contains(x)
                <==> s.writers_of(g).contains(x)) by {
                assert(cut.has_effect(x));
                if s.writers_of(g).contains(x) {
                    assert(apart.writers_of(g).contains(x));
                    assert(cut.writers_of(g).contains(x));
                }
                if cut.writers_of(g).contains(x) {
                    assert(apart.writers_of(g).contains(x));
                }
            }
            assert forall|g: SignalId|
                s.outputs(e).contains(g) implies !#[trigger] t.writers_of(g).contains(e) by {
                if cut.writers_of(g).contains(e) {
                    assert(apart.writers_of(g).contains(e));
                }
            }
            assert forall|x: EffectId|
                x != e && !tree::descends(s.children, e, x) implies #[trigger] t.children_of(x)
                == s.children_of(x) by {
                assert(cut.children.contains_key(x) <==> apart.children.contains_key(x));
            }
            assert forall|x: EffectId|
                x != e && !tree::descends(s.children, e, x) implies (#[trigger] t.parents.contains_key(
                x,
            ) <==> s.parents.contains_key(x)) by {
                assert(cut.parents.contains_key(x) <==> apart.parents.contains_key(x));
            }
            assert forall|x: EffectId| x != e implies (#[trigger] t.pending.contains(x)
                <==> s.pending.contains(x) && !tree::descends(s.children, e, x)) by {
                assert(cut.pending.contains(x) <==> apart.pending.contains(x) && !tree::descends(
                    s.children,
                    e,
                    x,
                ));
            }
        }
    }
}

/// To give a signal up touches only those who read it, and of them only that they read it.
pub proof fn law_dispose_signal_spares_others(s: State, g: SignalId)
    ensures
        ({
            let t = s.dispose_signal(g);
            &&& t == (State {
                signals: t.signals,
                signal_gens: t.signal_gens,
                effects: t.effects,
                ..s
            })
            &&& !s.has_signal(g) ==> t == s
            &&& forall|h: SignalId|
                h != g ==> (#[trigger] t.has_signal(h) <==> s.has_signal(h))
            &&& forall|x: EffectId| #[trigger] t.has_effect(x) <==> s.has_effect(x)
            &&& forall|x: EffectId| #[trigger]
                s.has_effect(x) ==> t.effect(x) == (EffectModel {
                    signals: t.links(x),
                    ..s.effect(x)
                })
            &&& forall|x: EffectId|
                !s.subscribers(g).contains(x) ==> #[trigger] t.links(x) == s.links(x)
            &&& forall|x: EffectId, h: SignalId|
                s.has_effect(x) ==> (#[trigger] links::writes(t.links(x), h) <==> links::writes(
                    s.links(x),
                    h,
                ))
        }),
{
    let t = s.dispose_signal(g);
    let subs = s.subscribers(g);
    if !s.has_signal(g) {
        facts::lemma_forget_none(s, g);
    }
    assert forall|x: EffectId| #[trigger] t.has_effect(x) <==> s.has_effect(x) by {
        if x.0 < s.effects.len() {
            assert(t.effects[x.0 as int] is Some <==> s.effects[x.0 as int] is Some);
        }
    }
    assert forall|x: EffectId| #[trigger] s.has_effect(x) implies t.effect(x) == (EffectModel {
        signals: t.links(x),
        ..s.effect(x)
    }) by {
        assert(t.has_effect(x));
        assert(t.effects[x.0 as int] is Some);
    }
    assert forall|x: EffectId| !subs.contains(x) implies #[trigger] t.links(x) == s.links(x) by {
        if s.has_effect(x) {
            assert(t.has_effect(x));
            facts::lemma_effect_hit(subs, s.effect_gens, x);
        }
    }
    assert forall|x: EffectId, h: SignalId| s.has_effect(x) implies (#[trigger] links::writes(
        t.links(x),
        h,
    ) <==> links::writes(s.links(x), h)) by {
        assert(t.has_effect(x));
        links::law_unlink_source(s.links(x), g);
        facts::lemma_effect_hit(subs, s.effect_gens, x);
        if !subs.contains(x) {
            assert(t.links(x) == s.links(x));
        } else {
            assert(t.links(x) == model::unlink_source(s.links(x), g));
        }
    }
}

/// To give a computed value up gives up its signal, which nobody reads any more, and its
/// effect, which is gone unless its parent holds it.
pub proof fn law_dispose_computed(s: State, g: SignalId, e: EffectId)
    requires
        s.wf(),
    ensures
        ({
            let t = s.dispose_computed(g, e);
            &&& !t.has_signal(g)
            &&& !t.pending.contains(e)
            &&& !s.parents.contains_key(e) ==> !t.has_effect(e)
            &&& s.parents.contains_key(e) && s.has_effect(e) ==> t.has_effect(e)
            &&& forall|x: EffectId|
                s.subscribers(g).contains(x) ==> !#[trigger] t.has_source(x, g)
            &&& forall|h: SignalId| h != g ==> (#[trigger] t.has_signal(h) <==> s.has_signal(h))
        }),
{
    let u = s.dispose_signal(g);
    let t = s.dispose_computed(g, e);
    valid::law_dispose_signal(s, g);
    law_dispose_signal_spares_others(s, g);
    valid::law_dispose_effect(u, e);
    law_dispose_effect_spares_others(u, e);
    assert(u.has_effect(e) == s.has_effect(e));
    if s.parents.contains_key(e) && s.has_effect(e) {
        assert(t.effects == u.effects);
    }
    assert forall|x: EffectId| s.subscribers(g).contains(x) implies !#[trigger] t.has_source(
        x,
        g,
    ) by {
        assert(!u.has_source(x, g));
        if x == e {
            if t.has_effect(e) {
                if u.has_effect(e) && !u.parents.contains_key(e) {
                    assert(!t.has_effect(e));
                }
                assert(t.effects == u.effects);
            }
        } else if t.has_effect(x) {
            assert(t.effect(x) == u.effect(x));
        }
    }
}

} // verus!
