use reaktiv::arena::effect_arena::{
    effect_arena_insert, mark_effect_pending, Callback, EffectFn, EffectId, EffectMetadata,
    ReactiveState,
};
use reaktiv::executor::{
    BackgroundQueue, EffectLoop, LoopCommand, LoopPhase, LoopState, Received, DEFAULT_BUDGET,
    DEFAULT_DEBOUNCE, DEFAULT_MAX_DEBOUNCE,
};
use reaktiv::runtime::{Action, Runtime};

struct Nothing;

impl Callback for Nothing {
    fn call(&mut self) {}
}

fn skippable(rt: &mut Runtime) -> EffectId {
    let f = EffectFn { body: Box::new(Nothing) };
    let id = effect_arena_insert(
        rt,
        EffectMetadata::new_with_callback_parent_and_skippable(f, None, true),
    );
    mark_effect_pending(rt, id);
    id
}

#[test]
fn default_settings() {
    let l = EffectLoop::new();
    assert_eq!(l, EffectLoop::default());
    assert_eq!((l.debounce, l.max_debounce, l.budget), (4_000_000, 16_000_000, 16_000_000));
    assert_eq!(
        (DEFAULT_DEBOUNCE, DEFAULT_MAX_DEBOUNCE, DEFAULT_BUDGET),
        (4_000_000, 16_000_000, 16_000_000)
    );
    let l = l.debounce(2).max_debounce(10).budget(8);
    assert_eq!((l.debounce, l.max_debounce, l.budget), (2, 10, 8));
}

#[test]
fn waits_are_bounded() {
    let l = EffectLoop::new().debounce(4).max_debounce(16);
    assert_eq!(l.timeout(0), Some(4));
    assert_eq!(l.timeout(12), Some(4));
    assert_eq!(l.timeout(13), Some(3));
    assert_eq!(l.timeout(15), Some(1));
    assert_eq!(l.timeout(16), None);
    assert_eq!(l.timeout(99), None);
}

#[test]
fn the_loop_debounces_drains_and_processes() {
    let mut l = LoopState::new(EffectLoop::new().debounce(4).max_debounce(16));
    assert_eq!(l.command(0), LoopCommand::Receive);
    l.received(Received::Notified);
    assert_eq!(l.command(0), LoopCommand::ReceiveFor(4));
    l.received(Received::Notified);
    assert_eq!(l.command(3), LoopCommand::ReceiveFor(4));
    l.received(Received::Nothing);
    assert_eq!(l.command(7), LoopCommand::TryReceive);
    l.received(Received::Notified);
    assert_eq!(l.command(7), LoopCommand::TryReceive);
    l.received(Received::Nothing);
    assert_eq!(l.command(7), LoopCommand::Process);
}

#[test]
fn the_loop_does_not_wait_forever() {
    let mut l = LoopState::new(EffectLoop::new().debounce(4).max_debounce(16));
    l.received(Received::Notified);
    l.received(Received::Notified);
    assert_eq!(l.command(14), LoopCommand::ReceiveFor(2));
    l.received(Received::Notified);
    assert_eq!(l.command(16), LoopCommand::TryReceive);
    assert_eq!(l.phase, LoopPhase::Draining);
}

#[test]
fn the_loop_stops_when_nobody_can_notify_it() {
    for n in 0..3 {
        let mut l = LoopState::new(EffectLoop::new());
        if n > 0 {
            l.received(Received::Notified);
        }
        if n > 1 {
            l.received(Received::Nothing);
        }
        l.received(Received::Disconnected);
        assert_eq!(l.command(0), LoopCommand::Stop);
    }
}

#[test]
fn what_is_not_reached_goes_to_the_background() {
    let mut rt = Runtime::new();
    let mut queue = BackgroundQueue::new();
    let ids: Vec<EffectId> = (0..3).map(|_| skippable(&mut rt)).collect();
    let mut l = LoopState::new(EffectLoop::new().budget(5));
    l.phase = LoopPhase::Processing;
    l.begin_flush(&mut rt);
    let mut ran = Vec::new();
    loop {
        match rt.step() {
            Action::Continue => {}
            Action::Run(e, f) => {
                ran.push(e);
                rt.finish_callback(f);
            }
            // the first is in time, the second is not
            Action::Clock => rt.clock(if ran.is_empty() { 5 } else { 6 }),
            Action::Done => break,
        }
    }
    assert_eq!(ran, vec![ids[0]]);
    assert!(l.end_flush(&mut rt, &mut queue));
    assert_eq!(l.phase, LoopPhase::Waiting);
    assert!(l.must_run.is_empty() && l.skippable.is_empty());
    // nothing is submitted twice
    assert!(!l.end_flush(&mut rt, &mut queue));
    // the worker takes the last one first
    assert!(queue.work(&mut rt));
    match rt.step() {
        Action::Run(e, f) => {
            assert_eq!(e, ids[2]);
            rt.finish_callback(f);
        }
        _ => panic!("the callback is due"),
    }
    assert_eq!(ids[2].state(&rt), ReactiveState::Clean);
    assert_eq!(queue.pop(), Some(ids[1]));
    assert!(!queue.work(&mut rt));
}

#[test]
fn the_queue_holds_each_effect_once() {
    let mut queue = BackgroundQueue::new();
    let id = |n: u32| EffectId::new(n);
    queue.submit(vec![id(3), id(1), id(3)]);
    queue.submit(vec![id(1), id(2)]);
    assert_eq!(queue.pop(), Some(id(2)));
    assert_eq!(queue.pop(), Some(id(1)));
    assert_eq!(queue.pop(), Some(id(3)));
    assert_eq!(queue.pop(), None);
}
