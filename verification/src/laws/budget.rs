//! Flushes with a budget, from their beginning to their end.
use vstd::prelude::*;

use crate::arena::effect_arena::EffectId;
use crate::laws::drive;
use crate::laws::drive::Host;
use crate::laws::steps;
use crate::laws::valid;
use crate::model::machine;
use crate::model::FrameModel;
use crate::model::LocalModel;
use crate::model::State;
use crate::runtime::Action;

verus! {

/// A flush with a budget begins with the time that it is given, all of it. The lists that it
/// works on are those that it is given, followed by what is pending: nothing is pending any
/// more, no processing is scheduled, and nothing else has changed.
pub proof fn law_budget_begins(s: State, limit: u128, m: Seq<EffectId>, k: Seq<EffectId>)
    ensures
        ({
            let t = s.flush_with_budget(limit, m, k);
            &&& t.pending == Seq::<EffectId>::empty()
            &&& !t.local.scheduled
            &&& t.local.frames.drop_last() == s.local.frames
            &&& t == (State {
                pending: t.pending,
                local: LocalModel { frames: t.local.frames, scheduled: false, ..s.local },
                ..s
            })
            &&& match t.local.frames.last() {
                FrameModel::Budget { must_run, skippable, next, limit: l, over } => {
                    &&& l == limit
                    &&& next == 0
                    &&& over is None
                    &&& must_run.len() >= m.len() && must_run.take(m.len() as int) == m
                    &&& skippable.len() >= k.len() && skippable.take(k.len() as int) == k
                    &&& forall|e: EffectId| #[trigger]
                        must_run.skip(m.len() as int).contains(e) <==> s.pending.contains(e)
                            && !s.is_skippable(e)
                    &&& forall|e: EffectId| #[trigger]
                        skippable.skip(k.len() as int).contains(e) <==> s.pending.contains(e)
                            && s.is_skippable(e)
                },
                _ => false,
            }
        }),
{
    let t = s.flush_with_budget(limit, m, k);
    assert(t.local.frames.drop_last() =~= s.local.frames);
    if let FrameModel::Budget { must_run, skippable, .. } = t.local.frames.last() {
        assert(must_run.take(m.len() as int) =~= m);
        assert(skippable.take(k.len() as int) =~= k);
        assert(must_run.skip(m.len() as int) =~= s.pending_split().0);
        assert(skippable.skip(k.len() as int) =~= s.pending_split().1);
        assert forall|e: EffectId|
            (#[trigger] must_run.skip(m.len() as int).contains(e) <==> s.pending.contains(e)
                && !s.is_skippable(e)) by {
            steps::law_pending_split(s, e);
        }
        assert forall|e: EffectId|
            (#[trigger] skippable.skip(k.len() as int).contains(e) <==> s.pending.contains(e)
                && s.is_skippable(e)) by {
            steps::law_pending_split(s, e);
        }
    }
}

/// While the time is not over, the next effect that can be deferred is updated if it is not
/// Clean, and only then the next one is looked at.
pub proof fn law_budget_updates_in_time(
    s: State,
    must_run: Seq<EffectId>,
    skippable: Seq<EffectId>,
    next: nat,
    limit: u128,
    elapsed: u128,
)
    requires
        s.local.frames.len() > 0,
        s.local.frames.last() == (FrameModel::Budget {
            must_run,
            skippable,
            next,
            limit,
            over: None,
        }),
        next < skippable.len(),
        elapsed <= limit,
    ensures
        ({
            let t = s.clock(elapsed);
            let e = skippable[next as int];
            let after = s.local.frames.drop_last().push(
                FrameModel::Budget { must_run, skippable, next: next + 1, limit, over: None },
            );
            &&& t.local.frames == if s.state_of(e) is Clean {
                after
            } else {
                after.push(FrameModel::Update { effect: e, skip: false })
            }
            &&& t == (State { local: LocalModel { frames: t.local.frames, ..s.local }, ..s })
        }),
{
}

/// Before each effect that can be deferred the host is asked for the time, and nothing else
/// happens meanwhile.
pub proof fn law_budget_asks_for_the_time(s: State)
    requires
        s.local.frames.len() > 0,
        s.local.frames.last() matches FrameModel::Budget { over: None, .. },
    ensures
        s.step() == (s, Action::Clock),
{
}

// ---------------------------------------------------------------------------
// To the end
// ---------------------------------------------------------------------------

/// Every reading of the clock is within `limit`.
pub open spec fn in_time(host: Host, limit: u128) -> bool {
    forall|s: State| #[trigger] (host.time)(s) <= limit
}

/// Every reading of the clock is past `limit`.
pub open spec fn too_late(host: Host, limit: u128) -> bool {
    forall|s: State| #[trigger] (host.time)(s) > limit
}

/// `e` waits among those that can be deferred, above `depth` activities.
spec fn awaits_slack(s: State, depth: nat, limit: u128, e: EffectId) -> bool {
    &&& s.local.frames.len() > depth
    &&& drive::awaits_run(s, e)
    &&& match s.local.frames[depth as int] {
        FrameModel::Budget { must_run, skippable, next, limit: l, over: None } => {
            &&& l == limit
            &&& drive::to_come(skippable, next, e) || (s.local.frames.len() == depth + 2
                && s.local.frames.last() == (FrameModel::Update { effect: e, skip: false }))
        },
        _ => false,
    }
}

/// `e` waits among those that must run, above `depth` activities.
spec fn awaits_duty(s: State, depth: nat, e: EffectId) -> bool {
    &&& s.local.frames.len() > depth
    &&& drive::awaits_run(s, e)
    &&& match s.local.frames[depth as int] {
        FrameModel::Budget { must_run, over: None, .. } => drive::to_come(must_run, 0, e),
        FrameModel::Budget { must_run, next, over: Some(over), .. } => drive::to_come(
            must_run,
            next,
            e,
        ) || (s.local.frames.len() == depth + 2 && s.local.frames.last() == (FrameModel::Update {
            effect: e,
            skip: over,
        })),
        _ => false,
    }
}

/// One step of such a flush, in time.
#[verifier::spinoff_prover]
proof fn lemma_slack_moves(s: State, depth: nat, limit: u128, host: Host, e: EffectId)
    requires
        host.orderly(),
        host.careful(),
        in_time(host, limit),
        s.wf(),
        drive::all_tame(s, depth),
        awaits_slack(s, depth, limit, e),
    ensures
        ({
            let n = drive::advance(s, host);
            &&& n.wf()
            &&& drive::runs_in(s, host).contains(e) || !n.has_effect(e) || awaits_slack(
                n,
                depth,
                limit,
                e,
            )
        }),
{
    let n = drive::advance(s, host);
    let rest = s.local.frames.drop_last();
    drive::lemma_advance(s, host);
    if s.local.frames.len() > depth + 1 {
        assert(drive::tame(s.local.frames[s.local.frames.len() - 1]));
        assert(rest[depth as int] == s.local.frames[depth as int]);
        assert(n.local.frames[depth as int] == rest[depth as int]);
        drive::lemma_inner_step(s, host, e);
        if s.local.frames.last() == (FrameModel::Update { effect: e, skip: false }) {
            assert(drive::runs_in(s, host)[0] == e);
        }
    } else {
        assert(s.local.frames.last() == s.local.frames[depth as int]);
        assert(rest.len() == depth);
        valid::law_clock_keeps_validity(s, (host.time)(s));
        if let FrameModel::Budget { must_run, skippable, next, limit: l, over } =
            s.local.frames.last() {
            let j = choose|j: int| next <= j < skippable.len() && #[trigger] skippable[j] == e;
            law_budget_asks_for_the_time(s);
            law_budget_updates_in_time(s, must_run, skippable, next, limit, (host.time)(s));
            assert(n == s.clock((host.time)(s)));
            assert(n.local.frames[depth as int] == (FrameModel::Budget {
                must_run,
                skippable,
                next: next + 1,
                limit,
                over: None,
            }));
            assert(drive::awaits_run(n, e));
            if j == next {
                assert(n.local.frames.last() == (FrameModel::Update { effect: e, skip: false }));
            } else {
                assert(drive::to_come(skippable, next + 1, e));
            }
        }
    }
}

/// One step of such a flush, whatever the time.
#[verifier::spinoff_prover]
proof fn lemma_duty_moves(s: State, depth: nat, host: Host, e: EffectId)
    requires
        host.orderly(),
        host.careful(),
        s.wf(),
        drive::all_tame(s, depth),
        awaits_duty(s, depth, e),
    ensures
        ({
            let n = drive::advance(s, host);
            &&& n.wf()
            &&& drive::runs_in(s, host).contains(e) || !n.has_effect(e) || awaits_duty(n, depth, e)
        }),
{
    let n = drive::advance(s, host);
    let rest = s.local.frames.drop_last();
    drive::lemma_advance(s, host);
    if s.local.frames.len() > depth + 1 {
        assert(drive::tame(s.local.frames[s.local.frames.len() - 1]));
        assert(rest[depth as int] == s.local.frames[depth as int]);
        assert(n.local.frames[depth as int] == rest[depth as int]);
        drive::lemma_inner_step(s, host, e);
        if s.local.frames.last() is Update && s.local.frames.last()->Update_effect == e {
            assert(drive::runs_in(s, host)[0] == e);
        }
    } else {
        assert(s.local.frames.last() == s.local.frames[depth as int]);
        assert(rest.len() == depth);
        valid::law_clock_keeps_validity(s, (host.time)(s));
        valid::law_step_keeps_validity(s);
        if let FrameModel::Budget { must_run, skippable, next, limit, over } =
            s.local.frames.last() {
            if over is None {
                law_budget_asks_for_the_time(s);
                assert(n == s.clock((host.time)(s)));
                assert(n.local.frames[depth as int] is Budget);
                assert(drive::awaits_run(n, e));
            } else {
                let j = choose|j: int| next <= j < must_run.len() && #[trigger] must_run[j] == e;
                steps::law_must_run_are_all_processed(
                    s,
                    must_run,
                    skippable,
                    next,
                    limit,
                    over->0,
                );
                assert(n == s.step().0);
                assert(n.local.frames[depth as int] == (FrameModel::Budget {
                    must_run,
                    skippable,
                    next: next + 1,
                    limit,
                    over,
                }));
                assert(drive::awaits_run(n, e));
                if j == next {
                    assert(n.local.frames.last() == (FrameModel::Update {
                        effect: e,
                        skip: over->0,
                    }));
                } else {
                    assert(drive::to_come(must_run, next + 1, e));
                }
            }
        }
    }
}

/// Whoever waits among those that can be deferred has run at the end, if there was time.
#[verifier::spinoff_prover]
#[verifier::rlimit(40)]
proof fn lemma_slack_ends(
    s: State,
    depth: nat,
    limit: u128,
    host: Host,
    fuel: nat,
    e: EffectId,
)
    requires
        host.orderly(),
        host.careful(),
        in_time(host, limit),
        s.wf(),
        drive::all_tame(s, depth),
        awaits_slack(s, depth, limit, e),
        drive::lives_on(s, depth, host, fuel, e),
        drive::drive(s, depth, host, fuel).local.frames.len() <= depth,
    ensures
        drive::runs(s, depth, host, fuel).contains(e),
    decreases fuel,
{
    assert(s.local.frames.len() > depth);
    assert(fuel > 0) by {
        if fuel == 0 {
            assert(drive::drive(s, depth, host, fuel) == s);
        }
    }
    let n = drive::advance(s, host);
    let first = drive::runs_in(s, host);
    let later = drive::runs(n, depth, host, (fuel - 1) as nat);
    assert(drive::runs(s, depth, host, fuel) == first + later);
    assert(drive::lives_on(n, depth, host, (fuel - 1) as nat, e));
    assert(n.has_effect(e));
    assert(drive::drive(s, depth, host, fuel) == drive::drive(n, depth, host, (fuel - 1) as nat));
    lemma_slack_moves(s, depth, limit, host, e);
    drive::lemma_stays_tame(s, depth, host);
    if !first.contains(e) {
        lemma_slack_ends(n, depth, limit, host, (fuel - 1) as nat, e);
    }
    drive::lemma_contains_either(first, later, e);
}

/// Whoever waits among those that must run has run at the end.
#[verifier::spinoff_prover]
#[verifier::rlimit(40)]
proof fn lemma_duty_ends(s: State, depth: nat, host: Host, fuel: nat, e: EffectId)
    requires
        host.orderly(),
        host.careful(),
        s.wf(),
        drive::all_tame(s, depth),
        awaits_duty(s, depth, e),
        drive::lives_on(s, depth, host, fuel, e),
        drive::drive(s, depth, host, fuel).local.frames.len() <= depth,
    ensures
        drive::runs(s, depth, host, fuel).contains(e),
    decreases fuel,
{
    assert(s.local.frames.len() > depth);
    assert(fuel > 0) by {
        if fuel == 0 {
            assert(drive::drive(s, depth, host, fuel) == s);
        }
    }
    let n = drive::advance(s, host);
    let first = drive::runs_in(s, host);
    let later = drive::runs(n, depth, host, (fuel - 1) as nat);
    assert(drive::runs(s, depth, host, fuel) == first + later);
    assert(drive::lives_on(n, depth, host, (fuel - 1) as nat, e));
    assert(n.has_effect(e));
    assert(drive::drive(s, depth, host, fuel) == drive::drive(n, depth, host, (fuel - 1) as nat));
    lemma_duty_moves(s, depth, host, e);
    drive::lemma_stays_tame(s, depth, host);
    if !first.contains(e) {
        lemma_duty_ends(n, depth, host, (fuel - 1) as nat, e);
    }
    drive::lemma_contains_either(first, later, e);
}

/// A flush whose time is never over runs everybody who can be deferred: whoever is in the
/// list of such effects, or pending and of this kind, and is Dirty, has its callback and is
/// not destroyed meanwhile, has run when the flush is over.
pub proof fn law_in_time_the_deferrable_run(
    s: State,
    limit: u128,
    m: Seq<EffectId>,
    k: Seq<EffectId>,
    host: Host,
    fuel: nat,
    e: EffectId,
)
    requires
        host.orderly(),
        host.careful(),
        in_time(host, limit),
        s.wf(),
        k.contains(e) || (s.pending.contains(e) && s.is_skippable(e)),
        drive::awaits_run(s, e),
        drive::lives_on(s.flush_with_budget(limit, m, k), s.local.frames.len(), host, fuel, e),
        drive::drive(
            s.flush_with_budget(limit, m, k),
            s.local.frames.len(),
            host,
            fuel,
        ).local.frames.len() <= s.local.frames.len(),
    ensures
        drive::runs(s.flush_with_budget(limit, m, k), s.local.frames.len(), host, fuel).contains(e),
{
    let n = s.local.frames.len();
    let begun = s.flush_with_budget(limit, m, k);
    valid::law_flush_with_budget_keeps_validity(s, limit, m, k);
    law_budget_begins(s, limit, m, k);
    if let FrameModel::Budget { skippable, .. } = begun.local.frames.last() {
        if k.contains(e) {
            let j = k.index_of(e);
            assert(skippable.take(k.len() as int)[j] == e);
            assert(skippable[j] == e);
        } else {
            let rest = skippable.skip(k.len() as int);
            assert(rest.contains(e));
            let j = rest.index_of(e);
            assert(skippable[k.len() + j] == e);
        }
        assert(drive::to_come(skippable, 0, e));
    }
    assert(drive::awaits_run(begun, e));
    lemma_slack_ends(begun, n, limit, host, fuel, e);
}

/// A flush with a budget runs everybody who must run, however late it is: whoever is in the
/// list of such effects, or pending and of this kind, and is Dirty, has its callback and is
/// not destroyed meanwhile, has run when the flush is over.
pub proof fn law_who_must_run_runs(
    s: State,
    limit: u128,
    m: Seq<EffectId>,
    k: Seq<EffectId>,
    host: Host,
    fuel: nat,
    e: EffectId,
)
    requires
        host.orderly(),
        host.careful(),
        s.wf(),
        m.contains(e) || (s.pending.contains(e) && !s.is_skippable(e)),
        drive::awaits_run(s, e),
        drive::lives_on(s.flush_with_budget(limit, m, k), s.local.frames.len(), host, fuel, e),
        drive::drive(
            s.flush_with_budget(limit, m, k),
            s.local.frames.len(),
            host,
            fuel,
        ).local.frames.len() <= s.local.frames.len(),
    ensures
        drive::runs(s.flush_with_budget(limit, m, k), s.local.frames.len(), host, fuel).contains(e),
{
    let n = s.local.frames.len();
    let begun = s.flush_with_budget(limit, m, k);
    valid::law_flush_with_budget_keeps_validity(s, limit, m, k);
    law_budget_begins(s, limit, m, k);
    if let FrameModel::Budget { must_run, .. } = begun.local.frames.last() {
        if m.contains(e) {
            let j = m.index_of(e);
            assert(must_run.take(m.len() as int)[j] == e);
            assert(must_run[j] == e);
        } else {
            let rest = must_run.skip(m.len() as int);
            assert(rest.contains(e));
            let j = rest.index_of(e);
            assert(must_run[m.len() + j] == e);
        }
        assert(drive::to_come(must_run, 0, e));
    }
    assert(drive::awaits_run(begun, e));
    lemma_duty_ends(begun, n, host, fuel, e);
}

// ---------------------------------------------------------------------------
// What comes back
// ---------------------------------------------------------------------------

/// A flush with the lists `m` and `k` is under way above `depth` activities, and has got
/// to the end of `k` or not.
spec fn spending(
    s: State,
    depth: nat,
    m: Seq<EffectId>,
    k: Seq<EffectId>,
    limit: u128,
) -> bool {
    s.local.frames.len() > depth && match s.local.frames[depth as int] {
        FrameModel::Budget { must_run, skippable, next, limit: l, over } => {
            &&& must_run == m
            &&& l == limit
            &&& over is None ==> skippable == k && next <= k.len()
            &&& over is Some ==> is_rest(k, skippable)
        },
        _ => false,
    }
}

/// `rest` is what is left of `list` when the first ones are gone.
pub open spec fn is_rest(list: Seq<EffectId>, rest: Seq<EffectId>) -> bool {
    rest.len() <= list.len() && rest == list.skip(list.len() - rest.len())
}

/// The effects that must run, as the last flush with a budget has given them back.
pub open spec fn must_run_list(s: State) -> Seq<EffectId> {
    match s.local.budget {
        Some((must_run, _)) => must_run,
        None => Seq::empty(),
    }
}

/// The effects that the last flush with a budget has deferred.
pub open spec fn deferred_list(s: State) -> Seq<EffectId> {
    match s.local.budget {
        Some((_, skippable)) => skippable,
        None => Seq::empty(),
    }
}

/// What a flush that is over says of the two lists.
spec fn spent(s: State, m: Seq<EffectId>, k: Seq<EffectId>) -> bool {
    s.local.budget is Some && must_run_list(s) == m && is_rest(k, deferred_list(s))
}

/// The flush gives everything back that it has not reached, or has reached everything.
spec fn all_or_nothing(
    s: State,
    depth: nat,
    k: Seq<EffectId>,
    late: bool,
) -> bool {
    s.local.frames.len() > depth && match s.local.frames[depth as int] {
        FrameModel::Budget { skippable, next, over, .. } => {
            &&& late ==> skippable == k && (over is None ==> next == 0)
            &&& !late && over is Some ==> skippable.len() == 0
        },
        _ => false,
    }
}

/// One step of a flush with a budget, and its lists.
#[verifier::spinoff_prover]
proof fn lemma_spending(
    s: State,
    depth: nat,
    m: Seq<EffectId>,
    k: Seq<EffectId>,
    limit: u128,
    host: Host,
    late: bool,
)
    requires
        host.orderly(),
        spending(s, depth, m, k, limit),
    ensures
        ({
            let n = drive::advance(s, host);
            &&& spending(n, depth, m, k, limit) || (n.local.frames.len() == depth && spent(n, m, k))
            &&& (if late {
                too_late(host, limit)
            } else {
                in_time(host, limit)
            }) && all_or_nothing(s, depth, k, late) ==> all_or_nothing(n, depth, k, late) || (
            n.local.frames.len() == depth && deferred_list(n) == (if late {
                k
            } else {
                Seq::empty()
            }))
        }),
{
    let n = drive::advance(s, host);
    let rest = s.local.frames.drop_last();
    drive::lemma_advance(s, host);
    if s.local.frames.len() > depth + 1 {
        assert(rest[depth as int] == s.local.frames[depth as int]);
        assert(n.local.frames[depth as int] == rest[depth as int]);
    } else {
        assert(s.local.frames.last() == s.local.frames[depth as int]);
        assert(rest.len() == depth);
        if let FrameModel::Budget { must_run, skippable, next, limit: l, over } =
            s.local.frames.last() {
            if over is None {
                let t = (host.time)(s);
                law_budget_asks_for_the_time(s);
                assert(n == s.clock(t));
                steps::law_budget(s, must_run, skippable, next, limit, t);
                if t > limit || next == skippable.len() {
                    let left = machine::left_of(skippable, next);
                    assert(left.len() == k.len() - next);
                    assert(left =~= k.skip(k.len() - left.len()));
                    assert(is_rest(k, left));
                    assert(n.local.frames[depth as int] == n.local.frames.last());
                    if late && all_or_nothing(s, depth, k, late) {
                        assert(left =~= k);
                    }
                } else {
                    law_budget_updates_in_time(s, must_run, skippable, next, limit, t);
                    assert(n.local.frames[depth as int] == (FrameModel::Budget {
                        must_run,
                        skippable,
                        next: next + 1,
                        limit,
                        over: None,
                    }));
                }
            } else {
                steps::law_must_run_are_all_processed(
                    s,
                    must_run,
                    skippable,
                    next,
                    limit,
                    over->0,
                );
                if next < must_run.len() {
                    assert(n.local.frames[depth as int] == (FrameModel::Budget {
                        must_run,
                        skippable,
                        next: next + 1,
                        limit,
                        over,
                    }));
                } else {
                    assert(n.local.frames == rest);
                    if !late && all_or_nothing(s, depth, k, late) {
                        assert(skippable =~= Seq::<EffectId>::empty());
                    }
                }
            }
        }
    }
}

/// What a flush with a budget says of its lists when it is over.
proof fn lemma_spent(
    s: State,
    depth: nat,
    m: Seq<EffectId>,
    k: Seq<EffectId>,
    limit: u128,
    host: Host,
    fuel: nat,
    late: bool,
)
    requires
        host.orderly(),
        spending(s, depth, m, k, limit),
        drive::drive(s, depth, host, fuel).local.frames.len() <= depth,
    ensures
        spent(drive::drive(s, depth, host, fuel), m, k),
        (if late {
            too_late(host, limit)
        } else {
            in_time(host, limit)
        }) && all_or_nothing(s, depth, k, late) ==> deferred_list(
            drive::drive(s, depth, host, fuel),
        ) == (if late {
            k
        } else {
            Seq::empty()
        }),
    decreases fuel,
{
    assert(fuel > 0) by {
        if fuel == 0 {
            assert(drive::drive(s, depth, host, fuel) == s);
        }
    }
    let n = drive::advance(s, host);
    lemma_spending(s, depth, m, k, limit, host, late);
    assert(drive::drive(s, depth, host, fuel) == drive::drive(n, depth, host, (fuel - 1) as nat));
    if n.local.frames.len() > depth {
        lemma_spent(n, depth, m, k, limit, host, (fuel - 1) as nat, late);
    }
}

/// When a flush with a budget is over it gives both lists back. That of the effects that
/// must run begins with those that were handed in. That of the effects that were deferred is
/// the end of those that were handed in and then pending: whoever comes late in it is
/// deferred before whoever comes early. If the time was never over it is empty, and if it
/// was over from the beginning it is the whole list.
pub proof fn law_budget_gives_back(
    s: State,
    limit: u128,
    m: Seq<EffectId>,
    k: Seq<EffectId>,
    host: Host,
    fuel: nat,
)
    requires
        host.orderly(),
        drive::drive(
            s.flush_with_budget(limit, m, k),
            s.local.frames.len(),
            host,
            fuel,
        ).local.frames.len() <= s.local.frames.len(),
    ensures
        ({
            let n = s.local.frames.len();
            let t = drive::drive(s.flush_with_budget(limit, m, k), n, host, fuel);
            &&& t.local.budget is Some
            &&& m.is_prefix_of(must_run_list(t))
            &&& forall|e: EffectId| #[trigger]
                must_run_list(t).skip(m.len() as int).contains(e) <==> s.pending.contains(e)
                    && !s.is_skippable(e)
            &&& exists|all: Seq<EffectId>|
                {
                    &&& k.is_prefix_of(all)
                    &&& forall|e: EffectId| #[trigger]
                        all.skip(k.len() as int).contains(e) <==> s.pending.contains(e)
                            && s.is_skippable(e)
                    &&& #[trigger] is_rest(all, deferred_list(t))
                    &&& too_late(host, limit) ==> deferred_list(t) == all
                }
            &&& in_time(host, limit) ==> deferred_list(t) == Seq::<EffectId>::empty()
        }),
{
    let n = s.local.frames.len();
    let begun = s.flush_with_budget(limit, m, k);
    let t = drive::drive(begun, n, host, fuel);
    law_budget_begins(s, limit, m, k);
    assert(begun.local.frames[n as int] == begun.local.frames.last());
    if let FrameModel::Budget { must_run, skippable, .. } = begun.local.frames.last() {
        lemma_spent(begun, n, must_run, skippable, limit, host, fuel, true);
        lemma_spent(begun, n, must_run, skippable, limit, host, fuel, false);
        assert(m =~= must_run.subrange(0, m.len() as int));
        assert(k =~= skippable.subrange(0, k.len() as int));
        assert(is_rest(skippable, deferred_list(t)));
    }
}

} // verus!
