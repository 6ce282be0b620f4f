//! The effect loop and the background worker.
use vstd::prelude::*;

use crate::arena::effect_arena::EffectId;
use crate::executor;
use crate::executor::EffectLoop;
use crate::executor::LoopPhase;
use crate::executor::LoopState;
use crate::executor::Received;
use crate::model;
use crate::model::facts;

verus! {

/// However many notifications arrive, the loop never waits past the maximum; nor does it
/// wait for one of them longer than the debounce delay.
pub proof fn law_debouncing_is_bounded(l: EffectLoop, elapsed: u128)
    ensures
        l.wait_after(elapsed) is None <==> elapsed >= l.max_debounce,
        l.wait_after(elapsed) matches Some(t) ==> t <= l.debounce && elapsed + t <= l.max_debounce,
{
}

/// Effects are processed only when the loop has been notified, has waited, and has found
/// no further notification.
pub proof fn law_processing_follows_draining(l: LoopState, elapsed: u128, received: Received)
    ensures
        l.phase_at(elapsed).after(received) == LoopPhase::Processing ==> (l.phase_at(elapsed)
            == LoopPhase::Draining && received == Received::Nothing) || l.phase
            == LoopPhase::Processing,
        l.phase == LoopPhase::Debouncing && elapsed >= l.settings.max_debounce ==> l.phase_at(
            elapsed,
        ) == LoopPhase::Draining,
        received == Received::Disconnected && l.phase != LoopPhase::Processing ==> l.phase_at(
            elapsed,
        ).after(received) == LoopPhase::Stopped,
{
}

/// Deferred effects are queued once, however often they are submitted, and none is lost.
pub proof fn law_queue_keeps_each_once(s: Seq<EffectId>, list: Seq<EffectId>)
    requires
        s.no_duplicates(),
    ensures
        executor::insert_all(s, list).no_duplicates(),
        forall|e: EffectId| #[trigger]
            executor::insert_all(s, list).contains(e) <==> s.contains(e) || list.contains(e),
    decreases list.len(),
{
    if list.len() > 0 {
        let next = model::insert_once(s, list[0]);
        let rest = list.drop_first();
        facts::lemma_insert_once(s, list[0]);
        law_queue_keeps_each_once(next, rest);
        assert forall|e: EffectId| #[trigger] executor::insert_all(s, list).contains(e)
            <==> s.contains(e) || list.contains(e) by {
            assert(executor::insert_all(s, list).contains(e) <==> next.contains(e)
                || rest.contains(e));
            if list.contains(e) {
                let i = list.index_of(e);
                if i > 0 {
                    assert(rest[i - 1] == e);
                }
            }
            if rest.contains(e) {
                let i = rest.index_of(e);
                assert(list[i + 1] == e);
            }
        }
    }
}

// ---------------------------------------------------------------------------
// Whole batches
// ---------------------------------------------------------------------------

/// What happens to a loop, turn by turn: how much time has passed since the first
/// notification of the batch when it asks what to do, and what it then receives.
pub struct History {
    /// The time, in nanoseconds.
    pub times: Seq<u128>,
    /// What is received, where something is to be received.
    pub got: Seq<Received>,
}

/// The phase that turn `n` finds.
pub open spec fn phase_before(l: EffectLoop, h: History, n: nat) -> LoopPhase
    decreases n,
{
    if n == 0 {
        LoopPhase::Waiting
    } else {
        let m = (n - 1) as nat;
        let p = l.goes_on_in(phase_before(l, h, m), h.times[m as int]);
        if p == LoopPhase::Processing {
            LoopPhase::Waiting
        } else {
            p.after(h.got[m as int])
        }
    }
}

/// The phase in which turn `n` is made.
pub open spec fn turn(l: EffectLoop, h: History, n: nat) -> LoopPhase {
    l.goes_on_in(phase_before(l, h, n), h.times[n as int])
}

/// Turn `n` is part of a batch: notifications have arrived that are not processed yet.
pub open spec fn in_batch(l: EffectLoop, h: History, n: nat) -> bool {
    ||| turn(l, h, n) == LoopPhase::Debouncing
    ||| turn(l, h, n) == LoopPhase::Draining
    ||| turn(l, h, n) == LoopPhase::Processing
}

/// A batch begins with the notification of turn `i` and is not processed before turn `n`.
pub open spec fn batch(l: EffectLoop, h: History, i: nat, n: nat) -> bool {
    &&& i < n
    &&& turn(l, h, i) == LoopPhase::Waiting
    &&& h.got[i as int] == Received::Notified
    &&& forall|j: nat|
        i < j < n ==> #[trigger] turn(l, h, j) == LoopPhase::Debouncing || turn(l, h, j)
            == LoopPhase::Draining
}

/// Nothing is processed without a notification, and each batch is processed once: before a
/// flush there is a first notification, and from it on the loop has done nothing but
/// receive further ones, until there were none; after the flush it waits for a first
/// notification again.
pub proof fn law_one_flush_for_each_batch(l: EffectLoop, h: History, n: nat)
    requires
        turn(l, h, n) == LoopPhase::Processing,
    ensures
        exists|i: nat| batch(l, h, i, n),
        n > 0,
        turn(l, h, (n - 1) as nat) == LoopPhase::Draining,
        h.got[n - 1] == Received::Nothing,
        turn(l, h, n + 1) == LoopPhase::Waiting,
{
    lemma_batch_begins(l, h, n);
}

/// What is part of a batch comes after its first notification.
proof fn lemma_batch_begins(l: EffectLoop, h: History, n: nat)
    requires
        in_batch(l, h, n),
    ensures
        exists|i: nat| batch(l, h, i, n),
    decreases n,
{
    assert(n > 0);
    let m = (n - 1) as nat;
    if turn(l, h, m) == LoopPhase::Waiting {
        assert(batch(l, h, m, n));
    } else {
        assert(in_batch(l, h, m));
        lemma_batch_begins(l, h, m);
        let i = choose|i: nat| batch(l, h, i, m);
        assert forall|j: nat| i < j < n implies #[trigger] turn(l, h, j) == LoopPhase::Debouncing
            || turn(l, h, j) == LoopPhase::Draining by {
            if j == m {
                assert(turn(l, h, m) != LoopPhase::Processing);
            }
        }
        assert(batch(l, h, i, n));
    }
}

/// The host is on time: the clock starts with the first notification, a wait takes no
/// longer than it was asked for, and what is there is taken at once.
pub open spec fn punctual(l: EffectLoop, h: History, n: nat) -> bool {
    forall|j: nat|
        #![trigger turn(l, h, j)]
        j < n ==> match turn(l, h, j) {
            LoopPhase::Waiting => h.got[j as int] == Received::Notified ==> h.times[j as int + 1]
                == 0,
            LoopPhase::Debouncing => h.times[j as int + 1] <= h.times[j as int] + l.wait_after(
                h.times[j as int],
            )->0,
            LoopPhase::Draining => h.times[j as int + 1] == h.times[j as int],
            _ => true,
        }
}

/// However many notifications arrive, a batch is processed no later than the maximum after
/// its first notification.
pub proof fn law_batch_is_in_time(l: EffectLoop, h: History, n: nat)
    requires
        in_batch(l, h, n),
        punctual(l, h, n),
    ensures
        h.times[n as int] <= l.max_debounce,
    decreases n,
{
    assert(n > 0);
    let m = (n - 1) as nat;
    assert(punctual(l, h, m));
    if turn(l, h, m) == LoopPhase::Waiting {
        assert(h.times[m as int + 1] == 0);
    } else {
        assert(in_batch(l, h, m));
        law_batch_is_in_time(l, h, m);
    }
}

/// A pause as long as the debounce delay ends the wait: the loop takes what is there, and
/// when nothing is there it processes effects. Further notifications are taken into the
/// same batch.
pub proof fn law_pause_ends_the_wait(l: EffectLoop, h: History, n: nat)
    requires
        h.got[n as int] != Received::Disconnected,
    ensures
        turn(l, h, n) == LoopPhase::Debouncing && h.got[n as int] == Received::Nothing ==> turn(
            l,
            h,
            n + 1,
        ) == LoopPhase::Draining,
        turn(l, h, n) == LoopPhase::Draining && h.got[n as int] == Received::Nothing ==> turn(
            l,
            h,
            n + 1,
        ) == LoopPhase::Processing,
        turn(l, h, n) == LoopPhase::Debouncing && h.got[n as int] == Received::Notified ==> in_batch(
            l,
            h,
            n + 1,
        ),
        turn(l, h, n) == LoopPhase::Draining && h.got[n as int] == Received::Notified ==> turn(
            l,
            h,
            n + 1,
        ) == LoopPhase::Draining,
{
}

// ---------------------------------------------------------------------------
// Waits, turns and order
// ---------------------------------------------------------------------------

/// A wait is as long as it may be: the whole debounce delay, or all that is left of the
/// maximum. It never ends sooner than one of the two asks for.
pub proof fn law_wait_is_as_long_as_it_may_be(l: EffectLoop, elapsed: u128)
    ensures
        l.wait_after(elapsed) matches Some(t) ==> t == l.debounce || elapsed + t == l.max_debounce,
        l.wait_after(elapsed) matches Some(t) ==> forall|longer: int|
            longer > t ==> longer > l.debounce || #[trigger] (elapsed + longer) > l.max_debounce,
{
}

/// Only the maximum moves a loop on by itself: a loop that debounces and has reached it takes
/// what is there; every other loop goes on in the phase in which it was.
pub proof fn law_only_the_maximum_moves_a_loop(l: EffectLoop, phase: LoopPhase, elapsed: u128)
    ensures
        l.goes_on_in(phase, elapsed) != phase <==> phase == LoopPhase::Debouncing && elapsed
            >= l.max_debounce,
        l.goes_on_in(phase, elapsed) != phase ==> l.goes_on_in(phase, elapsed)
            == LoopPhase::Draining,
{
}

/// What a loop does next after it has looked for a notification: a loop that waits goes on
/// waiting until there is one, and then debounces; one that debounces does so as long as there
/// are more, and then takes what is there; one that takes what is there does so until there is
/// nothing left, and then processes. Where no notification can come any more it ends, unless
/// it is about to process. One that has ended stays so.
pub proof fn law_what_a_notification_does(phase: LoopPhase, received: Received)
    ensures
        ({
            let next = phase.after(received);
            let open = phase != LoopPhase::Processing && phase != LoopPhase::Stopped;
            &&& !open ==> next == phase
            &&& open && received == Received::Disconnected ==> next == LoopPhase::Stopped
            &&& phase == LoopPhase::Waiting && received == Received::Notified ==> next
                == LoopPhase::Debouncing
            &&& phase == LoopPhase::Waiting && received == Received::Nothing ==> next
                == LoopPhase::Waiting
            &&& phase == LoopPhase::Debouncing && received == Received::Notified ==> next
                == LoopPhase::Debouncing
            &&& phase == LoopPhase::Debouncing && received == Received::Nothing ==> next
                == LoopPhase::Draining
            &&& phase == LoopPhase::Draining && received == Received::Notified ==> next
                == LoopPhase::Draining
            &&& phase == LoopPhase::Draining && received == Received::Nothing ==> next
                == LoopPhase::Processing
        }),
{
}

/// A first notification begins a wait for more, unless the maximum is nothing; a loop without
/// a notification waits on.
pub proof fn law_first_notification_begins_a_wait(l: EffectLoop, h: History, n: nat)
    requires
        turn(l, h, n) == LoopPhase::Waiting,
    ensures
        h.got[n as int] == Received::Notified && h.times[n as int + 1] < l.max_debounce ==> turn(
            l,
            h,
            n + 1,
        ) == LoopPhase::Debouncing,
        h.got[n as int] == Received::Nothing ==> turn(l, h, n + 1) == LoopPhase::Waiting,
        h.got[n as int] == Received::Disconnected ==> turn(l, h, n + 1) == LoopPhase::Stopped,
{
}

/// The queue keeps the order of arrival: what waits keeps its place, and what is submitted
/// comes after it, in the order in which it is submitted. Two submissions one after the other
/// are as one, and where everybody is new and named once, the whole list comes last.
pub proof fn law_queue_keeps_the_order(s: Seq<EffectId>, a: Seq<EffectId>, b: Seq<EffectId>)
    ensures
        s.is_prefix_of(executor::insert_all(s, a)),
        executor::insert_all(s, a + b) == executor::insert_all(executor::insert_all(s, a), b),
        (s + a).no_duplicates() ==> executor::insert_all(s, a) == s + a,
    decreases a.len(),
{
    if a.len() == 0 {
        assert(a + b =~= b);
        assert(s + a =~= s);
        assert(s =~= s.subrange(0, s.len() as int));
    } else {
        let x = a[0];
        let rest = a.drop_first();
        let next = model::insert_once(s, x);
        law_queue_keeps_the_order(next, rest, b);
        assert((a + b).drop_first() =~= rest + b);
        assert((a + b)[0] == x);
        let t = executor::insert_all(s, a);
        assert(t == executor::insert_all(next, rest));
        assert(s.is_prefix_of(next)) by {
            assert(s =~= next.subrange(0, s.len() as int));
        }
        assert(s =~= t.subrange(0, s.len() as int)) by {
            assert forall|i: int| 0 <= i < s.len() implies s[i] == #[trigger] t[i] by {
                assert(next[i] == s[i]);
                assert(next.subrange(0, next.len() as int)[i] == t.subrange(
                    0,
                    next.len() as int,
                )[i]);
            }
        }
        if (s + a).no_duplicates() {
            assert(!s.contains(x)) by {
                if s.contains(x) {
                    let i = s.index_of(x);
                    assert((s + a)[i] == (s + a)[s.len() as int]);
                }
            }
            assert(next + rest =~= s + a);
        }
    }
}

/// Out of the box a loop debounces for 4 milliseconds, waits no longer than 16 in all, and
/// has as many for a flush.
pub proof fn law_defaults()
    ensures
        executor::DEFAULT_DEBOUNCE == 4 * 1_000_000,
        executor::DEFAULT_MAX_DEBOUNCE == 16 * 1_000_000,
        executor::DEFAULT_BUDGET == 16 * 1_000_000,
{
}

} // verus!
