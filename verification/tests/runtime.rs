use std::sync::atomic::{AtomicUsize, Ordering};
use std::sync::Arc;

use reaktiv::arena::effect_arena::{
    current_effect, destroy_children, effect_arena_insert, effect_arena_remove,
    mark_effect_dirty, mark_effect_pending, remove_from_pending_set, set_current_effect,
    set_effect_parent, take_pending_effects, take_pending_effects_split, Callback,
    CurrentEffectGuard, EffectFn, EffectId, EffectMetadata, ReactiveState,
};
use reaktiv::arena::signal_arena::{
    add_signal_writer, remove_signal_writer, signal_arena_insert, signal_arena_remove,
    with_signal_arena, with_signal_writers, SignalId, SignalMetadata,
};
use reaktiv::computed::Computed;
use reaktiv::effect::{
    flush_effects, flush_effects_with_budget, is_processing_scheduled, run_single_effect,
    schedule_effect_processing, untracked, Effect,
};
use reaktiv::executor::notify_effect_loop;
use reaktiv::runtime::{Action, Local, Runtime};
use reaktiv::signal::Signal;
use reaktiv::transaction::{
    is_transaction_active, is_ui_update_suppressed, wait_for_transactions, Transaction,
};

struct Count(Arc<AtomicUsize>);

impl Callback for Count {
    fn call(&mut self) {
        self.0.fetch_add(1, Ordering::Relaxed);
    }
}

fn counter() -> (Arc<AtomicUsize>, EffectFn) {
    let n = Arc::new(AtomicUsize::new(0));
    (n.clone(), EffectFn { body: Box::new(Count(n)) })
}

/// A callback that does nothing.
fn nothing() -> EffectFn {
    counter().1
}

/// An effect with a callback, as it is after its first run.
fn live(rt: &mut Runtime) -> EffectId {
    effect_arena_insert(rt, EffectMetadata::new_with_callback(nothing()))
}

/// The identifier of a signal whose slot has held no other.
fn node(s: &Signal) -> SignalId {
    SignalId::new(s.slot)
}

/// Subscribes an effect to a signal.
fn link(rt: &mut Runtime, e: EffectId, g: SignalId) {
    e.add_source(rt, g);
    g.add_subscriber(rt, e);
}

fn subscribers(rt: &Runtime, g: SignalId) -> Vec<EffectId> {
    g.with_subscribers(rt, |v| v.clone()).unwrap()
}

fn sources(rt: &Runtime, e: EffectId) -> Vec<SignalId> {
    e.with_sources(rt, |mut it| {
        let mut v = Vec::new();
        while let Some(s) = it.next() {
            v.push(s);
        }
        v
    })
    .unwrap()
}

fn outputs(rt: &Runtime, e: EffectId) -> Vec<SignalId> {
    e.with_outputs(rt, |mut it| {
        let mut v = Vec::new();
        while let Some(s) = it.next() {
            v.push(s);
        }
        v
    })
    .unwrap()
}

/// Takes steps, runs callbacks, says that no time passes, and lists who has run.
fn drive(rt: &mut Runtime) -> Vec<EffectId> {
    let mut ran = Vec::new();
    loop {
        match rt.step() {
            Action::Continue => {}
            Action::Run(e, mut f) => {
                ran.push(e);
                f.body.call();
                rt.finish_callback(f);
            }
            Action::Clock => rt.clock(0),
            Action::Done => return ran,
        }
    }
}

// ----------------------------------------------------------------------------
// Identifiers, states, metadata
// ----------------------------------------------------------------------------

#[test]
fn a_signal_is_four_bytes() {
    assert_eq!(std::mem::size_of::<Signal>(), 4);
}

#[test]
fn state_from_number() {
    assert_eq!(ReactiveState::from_u8(0), ReactiveState::Clean);
    assert_eq!(ReactiveState::from_u8(1), ReactiveState::Check);
    assert_eq!(ReactiveState::from_u8(2), ReactiveState::Dirty);
    assert_eq!(ReactiveState::from_u8(255), ReactiveState::Dirty);
}

#[test]
fn metadata_states_only_upgrade() {
    let mut m = EffectMetadata::new();
    assert_eq!(m.get_state(), ReactiveState::Clean);
    assert!(!m.needs_work());
    assert!(m.upgrade_state(ReactiveState::Check));
    assert!(!m.upgrade_state(ReactiveState::Check));
    assert!(!m.upgrade_state(ReactiveState::Clean));
    assert_eq!(m.get_state(), ReactiveState::Check);
    assert!(m.upgrade_state(ReactiveState::Dirty));
    assert!(m.needs_work());
    assert_eq!(m.replace_state(ReactiveState::Clean), ReactiveState::Dirty);
    assert_eq!(m.get_state(), ReactiveState::Clean);
    m.set_state(ReactiveState::Dirty);
    assert_eq!(m.get_state(), ReactiveState::Dirty);
}

#[test]
fn metadata_constructors() {
    let p = Some(EffectId::new(7));
    for skippable in [false, true] {
        for ui_only in [false, true] {
            let m = EffectMetadata::new_with_callback_parent_and_flags(
                nothing(),
                p,
                skippable,
                ui_only,
            );
            assert_eq!(m.is_skippable(), skippable);
            assert_eq!(m.is_ui_updates_only(), ui_only);
            assert!(m.has_callback());
            assert_eq!(m.get_state(), ReactiveState::Clean);
        }
    }
    assert!(!EffectMetadata::default().has_callback());
    assert!(EffectMetadata::new_with_callback_and_parent(nothing(), p).has_callback());
    assert!(EffectMetadata::new_with_callback_parent_and_skippable(nothing(), p, true).is_skippable());
    let m = EffectMetadata::new_dirty();
    assert_eq!(m.get_state(), ReactiveState::Dirty);
    assert!(!m.has_callback());
}

#[test]
fn metadata_runs_its_callback() {
    let (n, f) = counter();
    let mut m = EffectMetadata::new_with_callback(f);
    m.run_callback();
    m.run_callback();
    assert_eq!(n.load(Ordering::Relaxed), 2);
    assert!(m.has_callback());
    EffectMetadata::new().run_callback();
}

#[test]
fn a_signal_can_be_read_and_written() {
    let a = SignalId::new(3);
    let b = SignalId::new(4);
    let c = SignalId::new(5);
    let mut m = EffectMetadata::new();
    m.add_source(a);
    m.add_output(a);
    m.add_source(b);
    m.add_source(b);
    m.add_output(c);
    assert_eq!(m.with_sources(|it| it.count()), 2);
    assert_eq!(m.with_outputs(|it| it.count()), 2);
    assert!(m.has_source(a) && m.has_source(b) && !m.has_source(c));
    // a stays an output when it is read no more, b goes
    m.remove_source(a);
    m.remove_source(b);
    assert!(!m.has_source(a) && !m.has_source(b));
    assert_eq!(m.with_outputs(|it| it.count()), 2);
    m.add_source(b);
    m.clear_sources();
    assert_eq!(m.with_sources(|it| it.count()), 0);
    assert_eq!(m.with_outputs(|it| it.count()), 2);
    m.add_source(a);
    assert_eq!(m.clear_signals(), (vec![a], vec![a, c]));
    assert_eq!(m.clear_signals(), (vec![], vec![]));
}

// ----------------------------------------------------------------------------
// Arenas and maps
// ----------------------------------------------------------------------------

#[test]
fn removed_slots_are_used_again() {
    let mut rt = Runtime::new();
    let a = live(&mut rt);
    let b = live(&mut rt);
    assert_ne!(a, b);
    b.set_state(&mut rt, ReactiveState::Check);
    assert!(effect_arena_remove(&mut rt, a).is_some());
    assert!(effect_arena_remove(&mut rt, a).is_none());
    assert!(!a.has_callback(&rt));
    // the new effect takes the slot, and b does not notice
    let c = live(&mut rt);
    assert_eq!(c.index(), a.index());
    assert_ne!(c, a);
    assert!(!a.has_callback(&rt));
    a.set_state(&mut rt, ReactiveState::Dirty);
    assert_eq!(c.state(&rt), ReactiveState::Clean);
    assert_eq!(b.state(&rt), ReactiveState::Check);
}

#[test]
fn signal_slots_are_used_again() {
    let mut rt = Runtime::new();
    let e = live(&mut rt);
    let a = signal_arena_insert(&mut rt, SignalMetadata::new());
    let b = signal_arena_insert(&mut rt, SignalMetadata::default());
    a.add_subscriber(&mut rt, e);
    b.add_subscriber(&mut rt, e);
    let removed = signal_arena_remove(&mut rt, a).unwrap();
    assert_eq!(removed.subscribers, vec![e]);
    assert!(signal_arena_remove(&mut rt, a).is_none());
    assert_eq!(with_signal_arena(&rt, |arena| arena.len()), 1);
    let c = signal_arena_insert(&mut rt, SignalMetadata::new());
    assert_eq!(c.index(), a.index());
    assert_ne!(c, a);
    assert!(a.with_subscribers(&rt, |_| ()).is_none());
    assert_eq!(subscribers(&rt, c), vec![]);
    assert_eq!(subscribers(&rt, b), vec![e]);
}

#[test]
fn stale_identifiers_change_nothing() {
    let mut rt = Runtime::new();
    let g = signal_arena_insert(&mut rt, SignalMetadata::new());
    let e = EffectId::new(9);
    assert_eq!(e.index(), 9);
    assert_eq!(e.state(&rt), ReactiveState::Clean);
    e.set_state(&mut rt, ReactiveState::Dirty);
    assert_eq!(e.state(&rt), ReactiveState::Clean);
    assert!(!e.upgrade_state(&mut rt, ReactiveState::Dirty));
    assert!(!e.needs_work(&rt));
    assert_eq!(e.remove_source(&mut rt, g), None);
    assert_eq!(e.clear_sources(&mut rt), None);
    assert_eq!(e.add_output(&mut rt, g), None);
    assert!(!e.has_source(&rt, g));
    assert!(!e.is_skippable(&rt) && !e.is_ui_updates_only(&rt));
    assert!(e.with(&rt, |_| ()).is_none());
    assert!(!mark_effect_pending(&mut rt, e));
    assert_eq!(take_pending_effects(&mut rt), vec![]);
    let h = SignalId::new(12);
    h.add_subscriber(&mut rt, e);
    h.remove_subscriber(&mut rt, e);
    h.notify_subscribers(&mut rt);
    assert!(h.with(&rt, |_| ()).is_none());
}

#[test]
fn parents_and_children() {
    let mut rt = Runtime::new();
    let (p, a, b) = (live(&mut rt), live(&mut rt), live(&mut rt));
    assert_eq!(a.parent(&rt), None);
    assert!(p.with_children(&rt, |_| ()).is_none());
    set_effect_parent(&mut rt, a, p);
    p.add_child(&mut rt, a);
    p.add_child(&mut rt, b);
    assert_eq!(a.parent(&rt), Some(p));
    assert_eq!(p.with_children(&rt, |v| v.clone()), Some(vec![a, b]));
    p.remove_child(&mut rt, a);
    assert_eq!(p.with_children(&rt, |v| v.clone()), Some(vec![b]));
    p.clear_children(&mut rt);
    assert_eq!(p.with_children(&rt, |v| v.clone()), None);
    p.add_child(&mut rt, a);
    p.remove_child(&mut rt, a);
    assert_eq!(p.with_children(&rt, |v| v.clone()), None);
    assert!(b.has_callback(&rt));
    effect_arena_remove(&mut rt, a);
    assert_eq!(a.parent(&rt), None);
}

#[test]
fn writers_are_registered_once() {
    let mut rt = Runtime::new();
    let g = SignalId::new(0);
    let (a, b) = (live(&mut rt), live(&mut rt));
    remove_signal_writer(&mut rt, g, a);
    assert!(with_signal_writers(&rt, g, |_| ()).is_none());
    add_signal_writer(&mut rt, g, a);
    add_signal_writer(&mut rt, g, b);
    add_signal_writer(&mut rt, g, a);
    assert_eq!(with_signal_writers(&rt, g, |v| v.clone()), Some(vec![a, b]));
    remove_signal_writer(&mut rt, g, a);
    assert_eq!(with_signal_writers(&rt, g, |v| v.clone()), Some(vec![b]));
    remove_signal_writer(&mut rt, g, b);
    assert_eq!(with_signal_writers(&rt, g, |v| v.clone()), None);
}

#[test]
fn the_last_pending_effect_takes_the_place_of_one_that_goes() {
    let mut rt = Runtime::new();
    let ids: Vec<EffectId> = (0..4).map(|_| live(&mut rt)).collect();
    for e in &ids {
        assert!(mark_effect_pending(&mut rt, *e));
        assert!(!mark_effect_pending(&mut rt, *e));
    }
    remove_from_pending_set(&mut rt, ids[0]);
    remove_from_pending_set(&mut rt, ids[0]);
    assert_eq!(take_pending_effects(&mut rt), vec![ids[3], ids[1], ids[2]]);
    assert_eq!(take_pending_effects(&mut rt), vec![]);
}

#[test]
fn pending_effects_are_split_by_flag() {
    let mut rt = Runtime::new();
    let a = live(&mut rt);
    let b = effect_arena_insert(
        &mut rt,
        EffectMetadata::new_with_callback_parent_and_skippable(nothing(), None, true),
    );
    let c = live(&mut rt);
    for e in [a, b, c] {
        mark_effect_pending(&mut rt, e);
    }
    let mut must_run = vec![EffectId::new(40)];
    let mut skippable = vec![EffectId::new(41)];
    take_pending_effects_split(&mut rt, &mut must_run, &mut skippable);
    assert_eq!(must_run, vec![EffectId::new(40), a, c]);
    assert_eq!(skippable, vec![EffectId::new(41), b]);
    assert_eq!(take_pending_effects(&mut rt), vec![]);
}

// ----------------------------------------------------------------------------
// Destruction
// ----------------------------------------------------------------------------

#[test]
fn all_descendants_are_destroyed_and_nobody_else() {
    let mut rt = Runtime::new();
    let g = signal_arena_insert(&mut rt, SignalMetadata::new());
    let (root, child, grandchild, other) =
        (live(&mut rt), live(&mut rt), live(&mut rt), live(&mut rt));
    for (p, c) in [(root, child), (child, grandchild)] {
        set_effect_parent(&mut rt, c, p);
        p.add_child(&mut rt, c);
    }
    for e in [grandchild, other, child] {
        link(&mut rt, e, g);
        mark_effect_pending(&mut rt, other);
    }
    mark_effect_pending(&mut rt, grandchild);
    destroy_children(&mut rt, root);
    assert!(root.has_callback(&rt) && other.has_callback(&rt));
    assert!(!child.has_callback(&rt) && !grandchild.has_callback(&rt));
    assert_eq!(subscribers(&rt, g), vec![other]);
    assert_eq!(take_pending_effects(&mut rt), vec![other]);
    assert!(root.with_children(&rt, |_| ()).is_none());
    assert!(child.with_children(&rt, |_| ()).is_none());
    assert_eq!(grandchild.parent(&rt), None);
}

#[test]
fn children_die_when_their_parent_is_marked() {
    let mut rt = Runtime::new();
    let (p, c) = (live(&mut rt), live(&mut rt));
    p.add_child(&mut rt, c);
    p.set_state(&mut rt, ReactiveState::Check);
    assert!(!mark_effect_dirty(&mut rt, p));
    assert_eq!(p.state(&rt), ReactiveState::Dirty);
    assert!(!c.has_callback(&rt));
    assert_eq!(p.with_children(&rt, |v| v.len()), None);
    assert_eq!(take_pending_effects(&mut rt), vec![p]);
    // a Dirty one is left as it is
    let d = live(&mut rt);
    p.add_child(&mut rt, d);
    assert!(!mark_effect_dirty(&mut rt, p));
    assert!(d.has_callback(&rt));
    p.set_state(&mut rt, ReactiveState::Clean);
    p.mark_dirty(&mut rt);
    assert!(!d.has_callback(&rt));
    assert_eq!(take_pending_effects(&mut rt), vec![p]);
}

#[test]
fn an_effect_that_is_given_up_reacts_to_nothing() {
    let mut rt = Runtime::new();
    let g = Signal::new(&mut rt);
    let e = Effect::new(&mut rt, nothing());
    let id = e.id();
    drive(&mut rt);
    link(&mut rt, id, node(&g));
    id.add_output(&mut rt, node(&g));
    add_signal_writer(&mut rt, node(&g), id);
    let c = live(&mut rt);
    id.add_child(&mut rt, c);
    e.invalidate(&mut rt);
    e.dispose(&mut rt);
    assert!(!id.has_callback(&rt) && !c.has_callback(&rt));
    assert_eq!(take_pending_effects(&mut rt), vec![]);
    assert_eq!(subscribers(&rt, node(&g)), vec![]);
    assert_eq!(with_signal_writers(&rt, node(&g), |v| v.len()), None);
}

#[test]
fn a_child_that_is_given_up_stays_with_its_parent() {
    let mut rt = Runtime::new();
    let g = Signal::new(&mut rt);
    let parent = live(&mut rt);
    set_current_effect(&mut rt, Some(parent));
    let child = Effect::new(&mut rt, nothing());
    let id = child.id();
    set_current_effect(&mut rt, None);
    drive(&mut rt);
    assert_eq!(id.parent(&rt), Some(parent));
    assert_eq!(parent.with_children(&rt, |v| v.clone()), Some(vec![id]));
    link(&mut rt, id, node(&g));
    child.dispose(&mut rt);
    assert!(id.has_callback(&rt));
    assert_eq!(subscribers(&rt, node(&g)), vec![]);
    // the parent destroys it
    mark_effect_pending(&mut rt, parent);
    assert!(!id.has_callback(&rt));
}

#[test]
fn a_signal_that_is_given_up_is_no_source() {
    let mut rt = Runtime::new();
    let g = Signal::new(&mut rt);
    let h = Signal::new(&mut rt);
    let id = node(&g);
    let e = live(&mut rt);
    link(&mut rt, e, id);
    link(&mut rt, e, node(&h));
    e.add_output(&mut rt, id);
    g.dispose(&mut rt);
    assert!(id.with_subscribers(&rt, |_| ()).is_none());
    assert_eq!(sources(&rt, e), vec![node(&h)]);
    assert_eq!(outputs(&rt, e), vec![id]);
    assert_eq!(subscribers(&rt, node(&h)), vec![e]);
}

// ----------------------------------------------------------------------------
// Pushing changes
// ----------------------------------------------------------------------------

/// s -> a -> t -> b -> u -> c, and d on its own.
fn chain(rt: &mut Runtime) -> (Signal, [EffectId; 4]) {
    let s = Signal::new(rt);
    let t = Signal::new(rt);
    let u = Signal::new(rt);
    let (a, b, c, d) = (live(rt), live(rt), live(rt), live(rt));
    link(rt, a, node(&s));
    a.add_output(rt, node(&t));
    link(rt, b, node(&t));
    b.add_output(rt, node(&u));
    link(rt, c, node(&u));
    (s, [a, b, c, d])
}

#[test]
fn a_change_spreads_along_the_chain() {
    let mut rt = Runtime::new();
    let (s, [a, b, c, d]) = chain(&mut rt);
    s.emit(&mut rt);
    assert_eq!(a.state(&rt), ReactiveState::Dirty);
    assert_eq!(b.state(&rt), ReactiveState::Check);
    assert_eq!(c.state(&rt), ReactiveState::Check);
    assert_eq!(d.state(&rt), ReactiveState::Clean);
    assert_eq!(take_pending_effects(&mut rt), vec![a, b, c]);
}

#[test]
fn marking_stops_where_it_has_been() {
    let mut rt = Runtime::new();
    let (s, [a, b, c, _]) = chain(&mut rt);
    b.set_state(&mut rt, ReactiveState::Check);
    s.emit(&mut rt);
    assert_eq!(a.state(&rt), ReactiveState::Dirty);
    assert_eq!(b.state(&rt), ReactiveState::Check);
    assert_eq!(c.state(&rt), ReactiveState::Clean);
    assert_eq!(take_pending_effects(&mut rt), vec![a]);
}

#[test]
fn check_marks_do_not_run_in_circles() {
    let mut rt = Runtime::new();
    let s = Signal::new(&mut rt);
    let t = Signal::new(&mut rt);
    let (a, b) = (live(&mut rt), live(&mut rt));
    link(&mut rt, a, node(&s));
    a.add_output(&mut rt, node(&t));
    link(&mut rt, b, node(&t));
    b.add_output(&mut rt, node(&s));
    a.mark_check_recursive(&mut rt);
    assert_eq!(a.state(&rt), ReactiveState::Check);
    assert_eq!(b.state(&rt), ReactiveState::Check);
    assert_eq!(take_pending_effects(&mut rt), vec![a, b]);
}

#[test]
fn a_second_emit_changes_nothing() {
    let mut rt = Runtime::new();
    let (s, ids) = chain(&mut rt);
    s.emit(&mut rt);
    let states: Vec<ReactiveState> = ids.iter().map(|e| e.state(&rt)).collect();
    s.emit(&mut rt);
    let again: Vec<ReactiveState> = ids.iter().map(|e| e.state(&rt)).collect();
    assert_eq!(states, again);
    assert_eq!(take_pending_effects(&mut rt), vec![ids[0], ids[1], ids[2]]);
    assert!(is_processing_scheduled(&rt));
}

#[test]
fn changes_from_the_ui_are_filtered() {
    let mut rt = Runtime::new();
    let s = Signal::new(&mut rt);
    let all = live(&mut rt);
    let ui = effect_arena_insert(
        &mut rt,
        EffectMetadata::new_with_callback_parent_and_flags(nothing(), None, false, true),
    );
    link(&mut rt, ui, node(&s));
    link(&mut rt, all, node(&s));
    s.emit_from_ui(&mut rt);
    assert_eq!(take_pending_effects(&mut rt), vec![all]);
    assert_eq!(ui.state(&rt), ReactiveState::Clean);
    s.emit_from_api(&mut rt);
    assert_eq!(take_pending_effects(&mut rt), vec![ui]);
    assert_eq!(ui.state(&rt), ReactiveState::Dirty);
}

#[test]
fn an_effect_does_not_notify_itself() {
    let mut rt = Runtime::new();
    let s = Signal::new(&mut rt);
    let e = live(&mut rt);
    set_current_effect(&mut rt, Some(e));
    s.track_dependency(&mut rt);
    drive(&mut rt);
    assert!(e.has_source(&rt, node(&s)));
    s.emit(&mut rt);
    assert!(!e.has_source(&rt, node(&s)));
    assert_eq!(subscribers(&rt, node(&s)), vec![]);
    assert_eq!(outputs(&rt, e), vec![node(&s)]);
    assert_eq!(with_signal_writers(&rt, node(&s), |v| v.clone()), Some(vec![e]));
    assert_eq!(e.state(&rt), ReactiveState::Clean);
    assert_eq!(rt.take_warning(), Some((e, node(&s))));
    assert_eq!(rt.take_warning(), None);
    // an effect runs, so nothing is scheduled
    assert!(!is_processing_scheduled(&rt));
}

#[test]
fn subscribe_and_unsubscribe() {
    let mut rt = Runtime::new();
    let s = Signal::new(&mut rt);
    let (a, b) = (live(&mut rt), live(&mut rt));
    s.subscribe(&mut rt, a);
    s.subscribe(&mut rt, b);
    s.subscribe(&mut rt, a);
    assert_eq!(subscribers(&rt, node(&s)), vec![a, b]);
    s.unsubscribe(&mut rt, a);
    assert_eq!(subscribers(&rt, node(&s)), vec![b]);
}

#[test]
fn reads_are_tracked_once() {
    let mut rt = Runtime::new();
    let s = Signal::new(&mut rt);
    s.track_dependency(&mut rt);
    drive(&mut rt);
    assert_eq!(subscribers(&rt, node(&s)), vec![]);
    let e = live(&mut rt);
    set_current_effect(&mut rt, Some(e));
    s.track_dependency(&mut rt);
    drive(&mut rt);
    s.track_dependency(&mut rt);
    drive(&mut rt);
    assert_eq!(sources(&rt, e), vec![node(&s)]);
    assert_eq!(subscribers(&rt, node(&s)), vec![e]);
}

#[test]
fn untracked_reads_leave_no_trace() {
    let mut rt = Runtime::new();
    let s = Signal::new(&mut rt);
    let e = live(&mut rt);
    set_current_effect(&mut rt, Some(e));
    let r = untracked(&mut rt, |rt| {
        assert_eq!(current_effect(rt), None);
        s.track_dependency(rt);
        drive(rt);
        11
    });
    assert_eq!(r, 11);
    assert_eq!(current_effect(&rt), Some(e));
    assert_eq!(sources(&rt, e), vec![]);
    let guard = CurrentEffectGuard::new(&mut rt, None);
    assert_eq!(current_effect(&rt), None);
    guard.restore(&mut rt);
    assert_eq!(current_effect(&rt), Some(e));
}

#[test]
fn the_loop_is_notified_once_it_is_there() {
    let mut rt = Runtime::new();
    schedule_effect_processing(&mut rt);
    assert!(is_processing_scheduled(&rt));
    assert!(!rt.take_notice());
    rt.attach_effect_loop();
    notify_effect_loop(&mut rt);
    assert!(rt.take_notice());
    assert!(!rt.take_notice());
    let s = Signal::new(&mut rt);
    s.emit(&mut rt);
    assert!(rt.take_notice());
}

// ----------------------------------------------------------------------------
// Steps
// ----------------------------------------------------------------------------

#[test]
fn a_clean_effect_is_not_run() {
    let mut rt = Runtime::new();
    let e = live(&mut rt);
    e.update_if_necessary(&mut rt, false);
    assert!(matches!(rt.step(), Action::Continue));
    assert!(!rt.updated());
    assert!(matches!(rt.step(), Action::Done));
    run_single_effect(&mut rt, e);
    assert_eq!(drive(&mut rt), vec![]);
}

#[test]
fn a_dirty_effect_forgets_its_last_run() {
    let mut rt = Runtime::new();
    let s = Signal::new(&mut rt);
    let t = Signal::new(&mut rt);
    let e = live(&mut rt);
    link(&mut rt, e, node(&s));
    e.add_output(&mut rt, node(&t));
    add_signal_writer(&mut rt, node(&t), e);
    e.set_state(&mut rt, ReactiveState::Dirty);
    e.update_if_necessary(&mut rt, false);
    let f = match rt.step() {
        Action::Run(id, f) => {
            assert_eq!(id, e);
            f
        }
        _ => panic!("the callback is due"),
    };
    assert_eq!(current_effect(&rt), Some(e));
    assert_eq!(e.state(&rt), ReactiveState::Clean);
    assert!(!e.has_callback(&rt));
    assert_eq!(sources(&rt, e), vec![]);
    assert_eq!(outputs(&rt, e), vec![]);
    assert_eq!(subscribers(&rt, node(&s)), vec![]);
    assert_eq!(with_signal_writers(&rt, node(&t), |v| v.len()), None);
    // nothing more to do until it returns
    assert!(matches!(rt.step(), Action::Done));
    // while it runs it cannot run again
    e.set_state(&mut rt, ReactiveState::Dirty);
    e.update_if_necessary(&mut rt, false);
    assert!(matches!(rt.step(), Action::Continue));
    rt.finish_callback(f);
    assert!(e.has_callback(&rt));
    assert_eq!(current_effect(&rt), None);
    assert!(rt.updated());
    assert_eq!(rt.activities(), 0);
}

#[test]
fn a_dirty_node_without_a_callback_does_not_run() {
    let mut rt = Runtime::new();
    let g = Signal::new(&mut rt);
    let e = effect_arena_insert(&mut rt, EffectMetadata::new_dirty());
    let r = live(&mut rt);
    e.add_output(&mut rt, node(&g));
    link(&mut rt, r, node(&g));
    e.update_if_necessary(&mut rt, false);
    assert_eq!(drive(&mut rt), vec![]);
    assert!(!rt.updated());
    assert_eq!(e.state(&rt), ReactiveState::Clean);
    assert_eq!(r.state(&rt), ReactiveState::Clean);
}

#[test]
fn a_check_effect_that_has_run_meanwhile_is_not_run_again() {
    let mut rt = Runtime::new();
    let s = Signal::new(&mut rt);
    let (w, e) = (live(&mut rt), live(&mut rt));
    add_signal_writer(&mut rt, node(&s), w);
    link(&mut rt, e, node(&s));
    w.set_state(&mut rt, ReactiveState::Dirty);
    e.set_state(&mut rt, ReactiveState::Check);
    e.update_if_necessary(&mut rt, false);
    loop {
        match rt.step() {
            Action::Run(id, f) => {
                assert_eq!(id, w);
                // the callback brings the other effect up to date
                e.set_state(&mut rt, ReactiveState::Clean);
                rt.finish_callback(f);
            }
            Action::Done => break,
            _ => {}
        }
    }
    assert!(!rt.updated());
}

#[test]
fn a_destroyed_child_writes_nothing() {
    let mut rt = Runtime::new();
    let g = Signal::new(&mut rt);
    let (p, c) = (live(&mut rt), live(&mut rt));
    p.add_child(&mut rt, c);
    c.add_output(&mut rt, node(&g));
    add_signal_writer(&mut rt, node(&g), c);
    mark_effect_pending(&mut rt, p);
    assert_eq!(with_signal_writers(&rt, node(&g), |v| v.len()), None);
}

#[test]
fn stale_identifiers_stay_stale() {
    let mut rt = Runtime::new();
    let g = Signal::new(&mut rt);
    let old = g.node_id(&rt);
    let e = live(&mut rt);
    link(&mut rt, e, old);
    g.dispose(&mut rt);
    let h = Signal::new(&mut rt);
    let new = h.node_id(&rt);
    assert_eq!((old.index(), h.slot), (new.index(), 0));
    assert_ne!(old, new);
    old.add_subscriber(&mut rt, e);
    assert_eq!(subscribers(&rt, new), vec![]);
    // giving up the handle of an effect that is gone
    effect_arena_remove(&mut rt, e);
    let x = live(&mut rt);
    assert_eq!(x.index(), e.index());
    mark_effect_pending(&mut rt, x);
    Effect::from_raw(e).dispose(&mut rt);
    assert!(x.has_callback(&rt));
    assert_eq!(take_pending_effects(&mut rt), vec![x]);
}

#[test]
fn a_computed_value_keeps_its_signal_from_run_to_run() {
    let mut rt = Runtime::new();
    let c: Computed<u32> = Computed::new(&mut rt, nothing());
    drive(&mut rt);
    let (g, e) = (c.signal_id(&rt), c.effect_id());
    assert_eq!(outputs(&rt, e), vec![g]);
    assert_eq!(with_signal_writers(&rt, g, |v| v.clone()), Some(vec![e]));
    c.invalidate(&mut rt);
    c.refresh(&mut rt);
    assert_eq!(drive(&mut rt), vec![e]);
    assert_eq!(outputs(&rt, e), vec![g]);
    assert_eq!(with_signal_writers(&rt, g, |v| v.clone()), Some(vec![e]));
}

#[test]
fn readers_in_doubt_are_told_what_was_written() {
    let mut rt = Runtime::new();
    let t = Signal::new(&mut rt);
    let (a, b, c) = (live(&mut rt), live(&mut rt), live(&mut rt));
    link(&mut rt, b, node(&t));
    link(&mut rt, c, node(&t));
    a.set_state(&mut rt, ReactiveState::Dirty);
    b.set_state(&mut rt, ReactiveState::Check);
    a.update_if_necessary(&mut rt, false);
    let f = match rt.step() {
        Action::Run(_, f) => f,
        _ => panic!("the callback is due"),
    };
    // the callback writes t without a notification
    a.add_output(&mut rt, node(&t));
    rt.finish_callback(f);
    assert_eq!(b.state(&rt), ReactiveState::Dirty);
    // who is Clean has read what was written
    assert_eq!(c.state(&rt), ReactiveState::Clean);
    assert_eq!(take_pending_effects(&mut rt), vec![b]);
    assert!(rt.updated());
}

#[test]
fn states_are_ordered() {
    assert!(ReactiveState::Clean < ReactiveState::Check);
    assert!(ReactiveState::Check < ReactiveState::Dirty);
    assert_eq!(ReactiveState::Clean.max(ReactiveState::Dirty), ReactiveState::Dirty);
}

#[test]
fn a_node_has_its_own_signal_once() {
    let g = SignalId::new(4);
    let mut m = EffectMetadata::new();
    m.set_own_signal(g);
    m.set_own_signal(g);
    assert_eq!(m.with_outputs(|it| it.count()), 1);
}

#[test]
fn processing_twice_runs_nothing_the_second_time() {
    let mut rt = Runtime::new();
    let e = live(&mut rt);
    for _ in 0..5 {
        mark_effect_pending(&mut rt, e);
    }
    Effect::process_all(&mut rt);
    assert_eq!(drive(&mut rt), vec![e]);
    assert_eq!(rt.processed(), 1);
    Effect::process_all(&mut rt);
    assert_eq!(drive(&mut rt), vec![]);
    assert_eq!(rt.processed(), 0);
}

#[test]
fn processing_is_scheduled_until_the_flush() {
    let mut rt = Runtime::new();
    let s = Signal::new(&mut rt);
    let e = live(&mut rt);
    link(&mut rt, e, node(&s));
    s.emit(&mut rt);
    s.emit(&mut rt);
    assert!(is_processing_scheduled(&rt));
    flush_effects(&mut rt);
    assert!(!is_processing_scheduled(&rt));
    loop {
        match rt.step() {
            Action::Run(_, f) => {
                // an emit inside an effect schedules nothing
                s.emit(&mut rt);
                rt.finish_callback(f);
            }
            Action::Done => break,
            _ => {}
        }
    }
    assert!(!is_processing_scheduled(&rt));
}

#[test]
fn a_flush_leaves_no_reader_in_doubt() {
    let mut rt = Runtime::new();
    let (s, [a, b, c, d]) = chain(&mut rt);
    s.emit(&mut rt);
    assert_eq!(c.state(&rt), ReactiveState::Check);
    flush_effects(&mut rt);
    assert_eq!(drive(&mut rt), vec![a]);
    for e in [a, b, c, d] {
        assert_eq!(e.state(&rt), ReactiveState::Clean);
    }
}

#[test]
fn a_failed_callback_is_put_back() {
    let mut rt = Runtime::new();
    let outer = live(&mut rt);
    let (n, f) = counter();
    let e = effect_arena_insert(&mut rt, EffectMetadata::new_with_callback(f));
    set_current_effect(&mut rt, Some(outer));
    Effect::process_all(&mut rt);
    e.run_callback(&mut rt);
    match rt.step() {
        Action::Run(id, f) => {
            assert_eq!(id, e);
            assert!(!e.has_callback(&rt));
            rt.abort_callback(f);
        }
        _ => panic!("the callback is due"),
    }
    assert!(e.has_callback(&rt));
    assert_eq!(current_effect(&rt), Some(outer));
    assert_eq!(n.load(Ordering::Relaxed), 0);
    assert_eq!(rt.activities(), 1);
    rt.abandon(3);
    assert_eq!(rt.activities(), 1);
    rt.abandon(0);
    assert_eq!(rt.activities(), 0);
    // it runs the next time
    e.run_callback(&mut rt);
    assert_eq!(drive(&mut rt), vec![e]);
    assert_eq!(n.load(Ordering::Relaxed), 1);
}

#[test]
fn a_callback_of_an_effect_that_is_gone_is_dropped() {
    let mut rt = Runtime::new();
    let e = live(&mut rt);
    e.run_callback(&mut rt);
    match rt.step() {
        Action::Run(_, f) => {
            effect_arena_remove(&mut rt, e);
            rt.finish_callback(f);
        }
        _ => panic!("the callback is due"),
    }
    assert!(!e.has_callback(&rt));
    // without a callback under way there is nothing to finish
    rt.finish_callback(nothing());
    rt.abort_callback(nothing());
    rt.clock(5);
    assert!(matches!(rt.step(), Action::Done));
}

#[test]
fn check_without_a_stale_writer_is_clean() {
    let mut rt = Runtime::new();
    let s = Signal::new(&mut rt);
    let (w, e) = (live(&mut rt), live(&mut rt));
    add_signal_writer(&mut rt, node(&s), w);
    link(&mut rt, e, node(&s));
    e.set_state(&mut rt, ReactiveState::Check);
    e.update_if_necessary(&mut rt, false);
    assert_eq!(drive(&mut rt), vec![]);
    assert_eq!(e.state(&rt), ReactiveState::Clean);
    assert!(!rt.updated());
}

#[test]
fn a_stale_writer_runs_before_its_reader() {
    let mut rt = Runtime::new();
    let s = Signal::new(&mut rt);
    let (w, e) = (live(&mut rt), live(&mut rt));
    add_signal_writer(&mut rt, node(&s), w);
    link(&mut rt, e, node(&s));
    w.set_state(&mut rt, ReactiveState::Dirty);
    e.set_state(&mut rt, ReactiveState::Check);
    e.update_if_necessary(&mut rt, false);
    let mut ran = Vec::new();
    loop {
        match rt.step() {
            Action::Run(id, f) => {
                ran.push(id);
                if id == w {
                    s.emit(&mut rt);
                }
                rt.finish_callback(f);
            }
            Action::Done => break,
            _ => {}
        }
    }
    assert_eq!(ran, vec![w, e]);
    assert!(rt.updated());
}

#[test]
fn a_tracked_read_brings_the_signal_up_to_date_first() {
    let mut rt = Runtime::new();
    let s = Signal::new(&mut rt);
    let (w, e) = (live(&mut rt), live(&mut rt));
    add_signal_writer(&mut rt, node(&s), w);
    add_signal_writer(&mut rt, node(&s), e);
    w.set_state(&mut rt, ReactiveState::Dirty);
    e.set_state(&mut rt, ReactiveState::Dirty);
    set_current_effect(&mut rt, Some(e));
    node(&s).track_dependency(&mut rt);
    // the reader itself is a writer too, and not run
    assert_eq!(drive(&mut rt), vec![w]);
    assert_eq!(sources(&rt, e), vec![node(&s)]);
    assert_eq!(subscribers(&rt, node(&s)), vec![e]);
    assert_eq!(current_effect(&rt), Some(e));
}

#[test]
fn a_pull_can_leave_out_effects() {
    let mut rt = Runtime::new();
    let s = Signal::new(&mut rt);
    let a = live(&mut rt);
    let b = effect_arena_insert(
        &mut rt,
        EffectMetadata::new_with_callback_parent_and_skippable(nothing(), None, true),
    );
    for w in [a, b] {
        add_signal_writer(&mut rt, node(&s), w);
        w.set_state(&mut rt, ReactiveState::Dirty);
    }
    node(&s).pull(&mut rt, true);
    assert_eq!(drive(&mut rt), vec![a]);
    node(&s).pull(&mut rt, false);
    assert_eq!(drive(&mut rt), vec![b]);
}

#[test]
fn a_flush_processes_each_pending_effect_once() {
    let mut rt = Runtime::new();
    flush_effects(&mut rt);
    assert_eq!(drive(&mut rt), vec![]);
    assert_eq!(rt.processed(), 0);
    let ids: Vec<EffectId> = (0..3).map(|_| live(&mut rt)).collect();
    for e in &ids {
        mark_effect_pending(&mut rt, *e);
    }
    // one that has become Clean meanwhile is passed over
    ids[1].set_state(&mut rt, ReactiveState::Clean);
    schedule_effect_processing(&mut rt);
    flush_effects(&mut rt);
    assert!(!is_processing_scheduled(&rt));
    assert_eq!(drive(&mut rt), vec![ids[0], ids[2]]);
    assert_eq!(rt.processed(), 2);
    assert_eq!(take_pending_effects(&mut rt), vec![]);
}

#[test]
fn a_flush_processes_what_callbacks_make_pending() {
    let mut rt = Runtime::new();
    let (a, b) = (live(&mut rt), live(&mut rt));
    mark_effect_pending(&mut rt, a);
    flush_effects(&mut rt);
    let mut ran = Vec::new();
    loop {
        match rt.step() {
            Action::Run(id, f) => {
                ran.push(id);
                if id == a {
                    mark_effect_pending(&mut rt, b);
                }
                rt.finish_callback(f);
            }
            Action::Done => break,
            _ => {}
        }
    }
    assert_eq!(ran, vec![a, b]);
    assert_eq!(rt.processed(), 2);
    assert_eq!(take_pending_effects(&mut rt), vec![]);
}

#[test]
fn the_first_run_of_an_effect() {
    let mut rt = Runtime::new();
    let s = Signal::new(&mut rt);
    let (n, f) = counter();
    let e = Effect::new(&mut rt, f);
    link(&mut rt, e.id(), node(&s));
    // old subscriptions go before the callback
    match rt.step() {
        Action::Run(id, mut f) => {
            assert_eq!(id, e.id());
            assert_eq!(current_effect(&rt), Some(id));
            assert_eq!(sources(&rt, id), vec![]);
            assert_eq!(subscribers(&rt, node(&s)), vec![]);
            id.set_state(&mut rt, ReactiveState::Check);
            f.body.call();
            rt.finish_callback(f);
        }
        _ => panic!("the callback is due"),
    }
    assert_eq!(e.id().state(&rt), ReactiveState::Clean);
    assert_eq!(n.load(Ordering::Relaxed), 1);
    assert_eq!(current_effect(&rt), None);
    assert!(!e.id().is_skippable(&rt) && !e.id().is_ui_updates_only(&rt));
    assert!(Effect::new_skippable(&mut rt, nothing()).id().is_skippable(&rt));
    assert!(Effect::new_ui_updates_only(&mut rt, nothing()).id().is_ui_updates_only(&rt));
}

// ----------------------------------------------------------------------------
// Budgets
// ----------------------------------------------------------------------------

fn three_skippable_and_one_that_must_run(rt: &mut Runtime) -> ([EffectId; 3], EffectId) {
    let mut skippable = [EffectId::new(0); 3];
    for slot in &mut skippable {
        *slot = effect_arena_insert(
            rt,
            EffectMetadata::new_with_callback_parent_and_skippable(nothing(), None, true),
        );
        mark_effect_pending(rt, *slot);
    }
    let must_run = live(rt);
    mark_effect_pending(rt, must_run);
    (skippable, must_run)
}

/// Takes steps; the clock shows one more each time it is read.
fn drive_with_clock(rt: &mut Runtime) -> Vec<EffectId> {
    let mut now = 0;
    let mut ran = Vec::new();
    loop {
        match rt.step() {
            Action::Continue => {}
            Action::Run(e, f) => {
                ran.push(e);
                rt.finish_callback(f);
            }
            Action::Clock => {
                rt.clock(now);
                now += 1;
            }
            Action::Done => return ran,
        }
    }
}

#[test]
fn a_budget_defers_what_it_does_not_reach() {
    let mut rt = Runtime::new();
    let (s, m) = three_skippable_and_one_that_must_run(&mut rt);
    flush_effects_with_budget(&mut rt, 1, Vec::new(), Vec::new());
    // at 0 and at 1 the time is not over, at 2 it is
    assert_eq!(drive_with_clock(&mut rt), vec![s[0], s[1], m]);
    assert_eq!(rt.take_budget_lists(), Some((vec![m], vec![s[2]])));
    assert_eq!(rt.take_budget_lists(), None);
    assert_eq!(s[2].state(&rt), ReactiveState::Dirty);
}

#[test]
fn a_large_budget_defers_nothing() {
    let mut rt = Runtime::new();
    let (s, m) = three_skippable_and_one_that_must_run(&mut rt);
    flush_effects_with_budget(&mut rt, 100, Vec::new(), Vec::new());
    assert_eq!(drive_with_clock(&mut rt), vec![s[0], s[1], s[2], m]);
    assert_eq!(rt.take_budget_lists(), Some((vec![m], vec![])));
}

#[test]
fn effects_that_must_run_do_not_wait_for_skippable_writers_over_budget() {
    let mut rt = Runtime::new();
    let g = Signal::new(&mut rt);
    let (s, m) = three_skippable_and_one_that_must_run(&mut rt);
    add_signal_writer(&mut rt, node(&g), s[2]);
    link(&mut rt, m, node(&g));
    m.set_state(&mut rt, ReactiveState::Check);
    flush_effects_with_budget(&mut rt, 1, Vec::new(), Vec::new());
    // s[2] is over budget, and not run for the sake of m either
    assert_eq!(drive_with_clock(&mut rt), vec![s[0], s[1]]);
    assert_eq!(m.state(&rt), ReactiveState::Clean);
    assert_eq!(rt.take_budget_lists(), Some((vec![m], vec![s[2]])));
}

#[test]
fn lists_of_an_earlier_flush_come_first() {
    let mut rt = Runtime::new();
    let (s, m) = three_skippable_and_one_that_must_run(&mut rt);
    let earlier = live(&mut rt);
    earlier.set_state(&mut rt, ReactiveState::Dirty);
    let clean = live(&mut rt);
    flush_effects_with_budget(&mut rt, 100, vec![earlier, clean], vec![]);
    assert_eq!(drive_with_clock(&mut rt), vec![s[0], s[1], s[2], earlier, m]);
    assert_eq!(rt.take_budget_lists(), Some((vec![earlier, clean, m], vec![])));
}

// ----------------------------------------------------------------------------
// Transactions
// ----------------------------------------------------------------------------

#[test]
fn only_the_outermost_transaction_flushes() {
    let mut rt = Runtime::new();
    let s = Signal::new(&mut rt);
    let e = live(&mut rt);
    link(&mut rt, e, node(&s));
    let outer = Transaction::begin(&mut rt, true);
    assert!(is_transaction_active(&rt) && wait_for_transactions(&rt));
    assert!(is_ui_update_suppressed(&rt));
    let inner = Transaction::begin(&mut rt, false);
    // an inner transaction cannot lift the suppression
    assert!(is_ui_update_suppressed(&rt));
    s.emit(&mut rt);
    assert!(!is_processing_scheduled(&rt));
    inner.finish(&mut rt);
    assert!(is_transaction_active(&rt) && wait_for_transactions(&rt));
    assert_eq!(rt.activities(), 0);
    outer.finish(&mut rt);
    assert!(!is_transaction_active(&rt) && !wait_for_transactions(&rt));
    assert!(!is_ui_update_suppressed(&rt));
    assert_eq!(drive(&mut rt), vec![e]);
    assert!(is_processing_scheduled(&rt));
    assert_eq!(take_pending_effects(&mut rt), vec![]);
}

#[test]
fn a_function_in_a_transaction() {
    let mut rt = Runtime::new();
    let e = live(&mut rt);
    let r = Transaction::run(&mut rt, |rt| {
        mark_effect_pending(rt, e);
        assert!(!is_ui_update_suppressed(rt));
        5
    });
    assert_eq!(r, 5);
    assert_eq!(drive(&mut rt), vec![e]);
    let r = Transaction::no_ui_updates(&mut rt, |rt| is_ui_update_suppressed(rt));
    assert!(r);
    assert!(!is_ui_update_suppressed(&rt));
}

#[test]
fn threads_have_their_own_depth() {
    let mut rt = Runtime::new();
    let mut other = Local::new();
    let guard = Transaction::begin(&mut rt, false);
    rt.swap_local(&mut other);
    // another thread is not in a transaction, but the loop has to wait
    assert!(!is_transaction_active(&rt));
    assert!(wait_for_transactions(&rt));
    let second = Transaction::begin(&mut rt, false);
    second.finish(&mut rt);
    drive(&mut rt);
    assert!(wait_for_transactions(&rt));
    rt.swap_local(&mut other);
    assert!(is_transaction_active(&rt));
    guard.finish(&mut rt);
    drive(&mut rt);
    assert!(!wait_for_transactions(&rt));
}

// ----------------------------------------------------------------------------
// Computed values
// ----------------------------------------------------------------------------

#[test]
fn a_computed_value_notifies_when_it_changes() {
    let mut rt = Runtime::new();
    let mut c: Computed<u32> = Computed::new(&mut rt, nothing());
    let e = live(&mut rt);
    link(&mut rt, e, node(&c.signal));
    // the first value always counts as a change
    assert!(c.store(&mut rt, 7));
    assert_eq!(e.state(&rt), ReactiveState::Dirty);
    assert_eq!(c.get(), 7);
    e.set_state(&mut rt, ReactiveState::Clean);
    assert!(!c.store(&mut rt, 7));
    assert_eq!(e.state(&rt), ReactiveState::Clean);
    assert!(c.store(&mut rt, 8));
    assert_eq!(e.state(&rt), ReactiveState::Dirty);
    assert_eq!(c.get(), 8);
}

#[test]
fn a_computed_value_is_computed_when_it_has_to_be() {
    let mut rt = Runtime::new();
    let c: Computed<u32> = Computed::new(&mut rt, nothing());
    assert_eq!(drive(&mut rt), vec![c.effect_id()]);
    c.refresh(&mut rt);
    assert_eq!(drive(&mut rt), vec![]);
    c.invalidate(&mut rt);
    assert_eq!(c.effect_id().state(&rt), ReactiveState::Dirty);
    c.refresh(&mut rt);
    assert_eq!(drive(&mut rt), vec![c.effect_id()]);
    // a reader is subscribed, and does not compute again what it depends on
    let e = live(&mut rt);
    set_current_effect(&mut rt, Some(e));
    c.refresh(&mut rt);
    assert_eq!(drive(&mut rt), vec![]);
    assert_eq!(subscribers(&rt, node(&c.signal)), vec![e]);
    c.invalidate(&mut rt);
    c.refresh(&mut rt);
    assert_eq!(drive(&mut rt), vec![]);
}

#[test]
fn lazy_computed_values_wait() {
    let mut rt = Runtime::new();
    let c: Computed<u32> = Computed::lazy(&mut rt, nothing());
    assert_eq!(drive(&mut rt), vec![]);
    assert_eq!(c.effect_id().state(&rt), ReactiveState::Dirty);
    c.refresh(&mut rt);
    assert_eq!(drive(&mut rt), vec![c.effect_id()]);
    let d: Computed<u32> = Computed::lazy_skippable(&mut rt, nothing());
    assert!(d.effect_id().is_skippable(&rt) && !c.effect_id().is_skippable(&rt));
    let e: Computed<u32> = Computed::new_skippable(&mut rt, nothing());
    assert!(e.effect_id().is_skippable(&rt));
}

#[test]
fn a_computed_value_that_is_given_up() {
    let mut rt = Runtime::new();
    let c: Computed<u32> = Computed::new(&mut rt, nothing());
    drive(&mut rt);
    let (signal, effect) = (node(&c.signal), c.effect_id());
    let e = live(&mut rt);
    link(&mut rt, e, signal);
    c.invalidate(&mut rt);
    c.dispose(&mut rt);
    assert!(signal.with_subscribers(&rt, |_| ()).is_none());
    assert!(!effect.has_callback(&rt));
    assert_eq!(sources(&rt, e), vec![]);
    assert_eq!(take_pending_effects(&mut rt), vec![]);
}

#[test]
fn a_computed_value_inside_an_effect_is_its_child() {
    let mut rt = Runtime::new();
    let p = live(&mut rt);
    set_current_effect(&mut rt, Some(p));
    let c: Computed<u32> = Computed::lazy(&mut rt, nothing());
    set_current_effect(&mut rt, None);
    assert_eq!(c.effect_id().parent(&rt), Some(p));
    mark_effect_pending(&mut rt, p);
    assert!(!c.effect_id().has_callback(&rt));
}
