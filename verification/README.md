# reaktiv

Fine-grained reactivity, verified with Verus.

Signals are lightweight markers; values stay in the structs of their owners. When an
effect reads a signal, the dependency is recorded. When the signal changes, the effects
that depend on it, and only those, are marked: direct readers are *Dirty*, what depends on
them is *Check*. Nothing runs until the effects are flushed. A Check effect first brings
its sources up to date and runs only if one of them has made it Dirty. That goes for
computed values too: one that reads another is Check as soon as the other is Dirty.

## Layout

- `src/` is the library.
  - `model/` says what a runtime is, and what each operation makes of it.
  - `runtime.rs`, `arena/`, `signal.rs`, `effect.rs`, `computed.rs`, `transaction.rs` and
    `executor.rs` are the operations. Their contracts refer to the model.
  - `machine.rs` takes the steps of everything that may run a callback. The library never
    calls a callback: it hands it to its host, which calls it and hands it back.
  - `store.rs` is where the collections of other crates come in, with what is relied on
    of them.
  - `laws/` holds what is proved of the operations together: that an emit marks exactly
    what depends on a signal and a second one changes nothing, that a flush runs what is
    pending and ends with nothing pending whatever the callbacks do, that no Dirty effect is
    overlooked, that children are destroyed with their parents and nobody else is, that a
    stale identifier stays stale, that a valid runtime stays valid, that a batch of
    notifications is processed once and in time.
- `app/` is the host: one runtime behind a lock, handles that clean up when they are
  dropped, closures, the effect loop and the background worker as threads.
- `tests/` runs the library, through a small host of its own.

## Processing effects

```rust
let signal = Signal::new(&mut rt);
let effect = Effect::new(&mut rt, callback);
signal.emit(&mut rt);
flush_effects(&mut rt);
loop {
    match rt.step() {
        Action::Continue => {}
        Action::Run(_, mut f) => {
            f.body.call();
            rt.finish_callback(f);
        }
        Action::Clock => rt.clock(start.elapsed().as_nanos()),
        Action::Done => break,
    }
}
```
