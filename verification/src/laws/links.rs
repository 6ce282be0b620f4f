//! The links of an effect: what each change of them does to what it reads and writes.
use vstd::prelude::*;

use crate::arena::effect_arena::SignalRelation;
use crate::arena::signal_arena::SignalId;
use crate::lists;
use crate::model;
use crate::model::facts;
use crate::model::validity;
use crate::model::Link;

verus! {

/// `links` says that `signal` is written.
pub open spec fn writes(links: Seq<Link>, signal: SignalId) -> bool {
    exists|i: int|
        0 <= i < links.len() && (#[trigger] links[i]).0 == signal && links[i].1.is_output
}

/// The outputs are exactly the signals that are written.
pub proof fn law_outputs_are_written(links: Seq<Link>, signal: SignalId)
    ensures
        writes(links, signal) <==> model::outputs_of(links).contains(signal),
{
    let keep = |l: Link| l.1.is_output;
    let kept = links.filter(keep);
    let names = model::outputs_of(links);
    if writes(links, signal) {
        let i = choose|i: int|
            0 <= i < links.len() && (#[trigger] links[i]).0 == signal && links[i].1.is_output;
        links.lemma_filter_contains(keep, i);
        let j = kept.index_of(links[i]);
        assert(names[j] == signal);
    }
    if names.contains(signal) {
        let j = names.index_of(signal);
        links.lemma_filter_pred(keep, j);
        assert(kept.contains(kept[j]));
        links.lemma_filter_contains_rev(keep, kept[j]);
        let i = links.index_of(kept[j]);
        assert(links[i].0 == signal && links[i].1.is_output);
    }
}

/// The sources are exactly the signals that are read.
pub proof fn law_sources_are_read(links: Seq<Link>, signal: SignalId)
    ensures
        model::reads(links, signal) <==> model::sources_of(links).contains(signal),
{
    facts::lemma_reads_source(links, signal);
}

/// A filter keeps distinct links distinct.
proof fn lemma_filter_distinct(links: Seq<Link>, keep: spec_fn(Link) -> bool)
    requires
        validity::distinct_links(links),
    ensures
        validity::distinct_links(links.filter(keep)),
    decreases links.len(),
{
    if links.len() == 0 {
        reveal(Seq::filter);
    } else {
        let front = links.drop_last();
        let last = links.last();
        let kept = front.filter(keep);
        assert(links =~= front.push(last));
        assert(validity::distinct_links(front)) by {
            assert forall|i: int, j: int|
                0 <= i < front.len() && 0 <= j < front.len() && i != j implies (
            #[trigger] front[i]).0 != (#[trigger] front[j]).0 by {
                assert(links[i].0 != links[j].0);
            }
        }
        lemma_filter_distinct(front, keep);
        lists::lemma_filter_push(front, last, keep);
        if keep(last) {
            assert forall|i: int| 0 <= i < kept.len() implies (#[trigger] kept[i]).0 != last.0 by {
                assert(kept.contains(kept[i]));
                front.lemma_filter_contains_rev(keep, kept[i]);
                let j = front.index_of(kept[i]);
                assert(links[j].0 != links[links.len() - 1].0);
            }
        }
    }
}

/// A read: the signal is read, all other reads and all writes stay.
pub proof fn law_link_source(links: Seq<Link>, signal: SignalId)
    ensures
        forall|x: SignalId| #[trigger]
            model::reads(model::link_source(links, signal), x) <==> model::reads(links, x) || x
                == signal,
        forall|x: SignalId| #[trigger]
            writes(model::link_source(links, signal), x) <==> writes(links, x),
        validity::distinct_links(links) ==> validity::distinct_links(
            model::link_source(links, signal),
        ),
{
    let t = model::link_source(links, signal);
    if model::linked(links, signal) {
        let k = choose|k: int| 0 <= k < links.len() && (#[trigger] links[k]).0 == signal;
        assert forall|i: int| 0 <= i < links.len() implies #[trigger] t[i] == model::read_mark(
            links[i],
            signal,
        ) by {}
        assert(t[k].0 == signal && t[k].1.is_source);
        assert forall|x: SignalId| #[trigger] model::reads(t, x) <==> model::reads(links, x) || x
            == signal by {
            if model::reads(links, x) {
                let i = choose|i: int|
                    0 <= i < links.len() && (#[trigger] links[i]).0 == x && links[i].1.is_source;
                assert(t[i].0 == x && t[i].1.is_source);
            }
            if model::reads(t, x) {
                let i = choose|i: int|
                    0 <= i < t.len() && (#[trigger] t[i]).0 == x && t[i].1.is_source;
                assert(links[i].0 == x);
            }
        }
        assert forall|x: SignalId| #[trigger] writes(t, x) <==> writes(links, x) by {
            if writes(links, x) {
                let i = choose|i: int|
                    0 <= i < links.len() && (#[trigger] links[i]).0 == x && links[i].1.is_output;
                assert(t[i].0 == x && t[i].1.is_output);
            }
            if writes(t, x) {
                let i = choose|i: int|
                    0 <= i < t.len() && (#[trigger] t[i]).0 == x && t[i].1.is_output;
                assert(links[i].0 == x && links[i].1.is_output);
            }
        }
    } else {
        let n = links.len() as int;
        assert(t[n].0 == signal && t[n].1.is_source && !t[n].1.is_output);
        assert forall|x: SignalId| #[trigger] model::reads(t, x) <==> model::reads(links, x) || x
            == signal by {
            if model::reads(links, x) {
                let i = choose|i: int|
                    0 <= i < links.len() && (#[trigger] links[i]).0 == x && links[i].1.is_source;
                assert(t[i].0 == x && t[i].1.is_source);
            }
            if model::reads(t, x) {
                let i = choose|i: int|
                    0 <= i < t.len() && (#[trigger] t[i]).0 == x && t[i].1.is_source;
                if i < n {
                    assert(links[i].0 == x && links[i].1.is_source);
                }
            }
        }
        assert forall|x: SignalId| #[trigger] writes(t, x) <==> writes(links, x) by {
            if writes(links, x) {
                let i = choose|i: int|
                    0 <= i < links.len() && (#[trigger] links[i]).0 == x && links[i].1.is_output;
                assert(t[i].0 == x && t[i].1.is_output);
            }
            if writes(t, x) {
                let i = choose|i: int|
                    0 <= i < t.len() && (#[trigger] t[i]).0 == x && t[i].1.is_output;
                assert(links[i].0 == x && links[i].1.is_output);
            }
        }
        assert forall|i: int| 0 <= i < n implies (#[trigger] t[i]).0 != signal by {
            assert(t[i] == links[i]);
        }
    }
    if validity::distinct_links(links) {
        assert forall|i: int, j: int|
            0 <= i < t.len() && 0 <= j < t.len() && i != j implies (#[trigger] t[i]).0 != (
        #[trigger] t[j]).0 by {
            if i < links.len() && j < links.len() {
                assert(links[i].0 != links[j].0);
            }
        }
    }
}

/// A write: the signal is written, all other writes and all reads stay.
pub proof fn law_link_output(links: Seq<Link>, signal: SignalId, from_ui: bool)
    ensures
        forall|x: SignalId| #[trigger]
            model::reads(model::link_output(links, signal, from_ui), x) <==> model::reads(links, x),
        forall|x: SignalId| #[trigger]
            writes(model::link_output(links, signal, from_ui), x) <==> writes(links, x) || x == signal,
        validity::distinct_links(links) ==> validity::distinct_links(
            model::link_output(links, signal, from_ui),
        ),
        model::link_output(model::link_output(links, signal, from_ui), signal, from_ui)
            == model::link_output(links, signal, from_ui),
{
    let t = model::link_output(links, signal, from_ui);
    let n = links.len() as int;
    if model::linked(links, signal) {
        let k = choose|k: int| 0 <= k < links.len() && (#[trigger] links[k]).0 == signal;
        assert forall|i: int| 0 <= i < links.len() implies #[trigger] t[i] == model::write_mark(
            links[i],
            signal,
            from_ui,
        ) by {}
        assert(t[k].0 == signal && t[k].1.is_output);
    } else {
        assert(t[n].0 == signal && !t[n].1.is_source && t[n].1.is_output);
        assert forall|i: int| 0 <= i < n implies (#[trigger] t[i]).0 != signal by {
            assert(t[i] == links[i]);
        }
    }
    assert forall|x: SignalId| #[trigger] writes(t, x) <==> writes(links, x) || x == signal by {
        if writes(links, x) {
            let i = choose|i: int|
                0 <= i < links.len() && (#[trigger] links[i]).0 == x && links[i].1.is_output;
            assert(t[i].0 == x && t[i].1.is_output);
        }
        if writes(t, x) {
            let i = choose|i: int|
                0 <= i < t.len() && (#[trigger] t[i]).0 == x && t[i].1.is_output;
            if i < n {
                assert(links[i].0 == x);
            }
        }
    }
    assert forall|x: SignalId| #[trigger] model::reads(t, x) <==> model::reads(links, x) by {
        if model::reads(links, x) {
            let i = choose|i: int|
                0 <= i < links.len() && (#[trigger] links[i]).0 == x && links[i].1.is_source;
            assert(t[i].0 == x && t[i].1.is_source);
        }
        if model::reads(t, x) {
            let i = choose|i: int|
                0 <= i < t.len() && (#[trigger] t[i]).0 == x && t[i].1.is_source;
            assert(links[i].0 == x && links[i].1.is_source);
        }
    }
    if validity::distinct_links(links) {
        assert forall|i: int, j: int|
            0 <= i < t.len() && 0 <= j < t.len() && i != j implies (#[trigger] t[i]).0 != (
        #[trigger] t[j]).0 by {
            if i < links.len() && j < links.len() {
                assert(links[i].0 != links[j].0);
            }
        }
    }
    assert(model::linked(t, signal));
    assert forall|i: int| 0 <= i < t.len() implies model::write_mark(
        #[trigger] t[i],
        signal,
        from_ui,
    )
        == t[i] by {}
    assert(model::link_output(t, signal, from_ui) =~= t);
}

/// A read that is forgotten: the signal is not read, all other reads and all writes
/// stay.
pub proof fn law_unlink_source(links: Seq<Link>, signal: SignalId)
    ensures
        forall|x: SignalId| #[trigger]
            model::reads(model::unlink_source(links, signal), x) <==> model::reads(links, x) && x
                != signal,
        forall|x: SignalId| #[trigger]
            writes(model::unlink_source(links, signal), x) <==> writes(links, x),
        validity::distinct_links(links) ==> validity::distinct_links(
            model::unlink_source(links, signal),
        ),
{
    let keep = model::stays_without(signal);
    let change = model::unread_of(signal);
    let kept = links.filter(keep);
    let t = model::unlink_source(links, signal);
    assert forall|i: int| 0 <= i < kept.len() implies links.contains(#[trigger] kept[i])
        && t[i] == change(kept[i]) by {
        assert(kept.contains(kept[i]));
        links.lemma_filter_contains_rev(keep, kept[i]);
    }
    assert forall|x: SignalId| #[trigger] model::reads(t, x) <==> model::reads(links, x) && x
        != signal by {
        if model::reads(links, x) && x != signal {
            let i = choose|i: int|
                0 <= i < links.len() && (#[trigger] links[i]).0 == x && links[i].1.is_source;
            links.lemma_filter_contains(keep, i);
            let j = kept.index_of(links[i]);
            assert(t[j].0 == x && t[j].1.is_source);
        }
        if model::reads(t, x) {
            let j = choose|j: int|
                0 <= j < t.len() && (#[trigger] t[j]).0 == x && t[j].1.is_source;
            assert(links.contains(kept[j]));
            let i = links.index_of(kept[j]);
            assert(links[i].0 == x && links[i].1.is_source);
        }
    }
    assert forall|x: SignalId| #[trigger] writes(t, x) <==> writes(links, x) by {
        if writes(links, x) {
            let i = choose|i: int|
                0 <= i < links.len() && (#[trigger] links[i]).0 == x && links[i].1.is_output;
            links.lemma_filter_contains(keep, i);
            let j = kept.index_of(links[i]);
            assert(t[j].0 == x && t[j].1.is_output);
        }
        if writes(t, x) {
            let j = choose|j: int|
                0 <= j < t.len() && (#[trigger] t[j]).0 == x && t[j].1.is_output;
            assert(links.contains(kept[j]));
            let i = links.index_of(kept[j]);
            assert(links[i].0 == x && links[i].1.is_output);
        }
    }
    if validity::distinct_links(links) {
        lemma_filter_distinct(links, keep);
        assert forall|i: int, j: int|
            0 <= i < t.len() && 0 <= j < t.len() && i != j implies (#[trigger] t[i]).0 != (
        #[trigger] t[j]).0 by {
            assert(kept[i].0 != kept[j].0);
        }
    }
}

/// All reads are forgotten: nothing is read, all writes stay.
pub proof fn law_unlink_sources(links: Seq<Link>)
    ensures
        forall|x: SignalId| !#[trigger] model::reads(model::unlink_sources(links), x),
        forall|x: SignalId| #[trigger]
            writes(model::unlink_sources(links), x) <==> writes(links, x),
        validity::distinct_links(links) ==> validity::distinct_links(model::unlink_sources(links)),
{
    let keep = |l: Link| l.1.is_output;
    let kept = links.filter(keep);
    let t = model::unlink_sources(links);
    assert forall|i: int| 0 <= i < kept.len() implies links.contains(#[trigger] kept[i])
        && t[i] == model::unread(kept[i]) by {
        assert(kept.contains(kept[i]));
        links.lemma_filter_contains_rev(keep, kept[i]);
    }
    assert forall|x: SignalId| !#[trigger] model::reads(t, x) by {
        if model::reads(t, x) {
            let j = choose|j: int|
                0 <= j < t.len() && (#[trigger] t[j]).0 == x && t[j].1.is_source;
            assert(links.contains(kept[j]));
        }
    }
    assert forall|x: SignalId| #[trigger] writes(t, x) <==> writes(links, x) by {
        if writes(links, x) {
            let i = choose|i: int|
                0 <= i < links.len() && (#[trigger] links[i]).0 == x && links[i].1.is_output;
            links.lemma_filter_contains(keep, i);
            let j = kept.index_of(links[i]);
            assert(t[j].0 == x && t[j].1.is_output);
        }
        if writes(t, x) {
            let j = choose|j: int|
                0 <= j < t.len() && (#[trigger] t[j]).0 == x && t[j].1.is_output;
            assert(links.contains(kept[j]));
            let i = links.index_of(kept[j]);
            assert(links[i].0 == x && links[i].1.is_output);
        }
    }
    if validity::distinct_links(links) {
        lemma_filter_distinct(links, keep);
        assert forall|i: int, j: int|
            0 <= i < t.len() && 0 <= j < t.len() && i != j implies (#[trigger] t[i]).0 != (
        #[trigger] t[j]).0 by {
            assert(kept[i].0 != kept[j].0);
        }
    }
}

/// What an effect forgets before it runs again: nothing is read, and of what was written
/// only the signal of a computed value is left.
pub proof fn law_own_links(links: Seq<Link>)
    ensures
        forall|x: SignalId| !#[trigger] model::reads(model::own_links(links), x),
        forall|x: SignalId| #[trigger]
            writes(model::own_links(links), x) ==> writes(links, x),
        forall|i: int|
            0 <= i < model::own_links(links).len() ==> (#[trigger] model::own_links(
                links,
            )[i]).1.is_own,
        validity::distinct_links(links) ==> validity::distinct_links(model::own_links(links)),
{
    let keep = |l: Link| l.1.is_own;
    let kept = links.filter(keep);
    let t = model::own_links(links);
    assert forall|i: int| 0 <= i < kept.len() implies links.contains(#[trigger] kept[i])
        && t[i] == model::unread(kept[i]) && kept[i].1.is_own by {
        assert(kept.contains(kept[i]));
        links.lemma_filter_contains_rev(keep, kept[i]);
        links.lemma_filter_pred(keep, i);
    }
    assert forall|i: int| 0 <= i < t.len() implies (#[trigger] t[i]).1.is_own by {
        assert(kept[i].1.is_own);
    }
    assert forall|x: SignalId| !#[trigger] model::reads(t, x) by {
        if model::reads(t, x) {
            let j = choose|j: int|
                0 <= j < t.len() && (#[trigger] t[j]).0 == x && t[j].1.is_source;
            assert(links.contains(kept[j]));
        }
    }
    assert forall|x: SignalId| #[trigger] writes(t, x) implies writes(links, x) by {
        let j = choose|j: int| 0 <= j < t.len() && (#[trigger] t[j]).0 == x && t[j].1.is_output;
        assert(links.contains(kept[j]));
        let i = links.index_of(kept[j]);
        assert(links[i].0 == x && links[i].1.is_output);
    }
    if validity::distinct_links(links) {
        lemma_filter_distinct(links, keep);
        assert forall|i: int, j: int|
            0 <= i < t.len() && 0 <= j < t.len() && i != j implies (#[trigger] t[i]).0 != (
        #[trigger] t[j]).0 by {
            assert(kept[i].0 != kept[j].0);
        }
    }
}

/// The signal of a computed value is written, all reads and all other writes stay.
pub proof fn law_link_own(links: Seq<Link>, signal: SignalId)
    ensures
        forall|x: SignalId| #[trigger]
            model::reads(model::link_own(links, signal), x) <==> model::reads(links, x),
        validity::distinct_links(links) ==> validity::distinct_links(
            model::link_own(links, signal),
        ),
        !model::linked(links, signal) ==> writes(model::link_own(links, signal), signal),
{
    let t = model::link_own(links, signal);
    if !model::linked(links, signal) {
        let n = links.len() as int;
        assert(t[n] == model::own_link(signal));
        assert forall|i: int| 0 <= i < n implies (#[trigger] t[i]).0 != signal by {
            assert(t[i] == links[i]);
        }
        assert forall|x: SignalId| #[trigger] model::reads(t, x) <==> model::reads(links, x) by {
            if model::reads(links, x) {
                let i = choose|i: int|
                    0 <= i < links.len() && (#[trigger] links[i]).0 == x && links[i].1.is_source;
                assert(t[i].0 == x && t[i].1.is_source);
            }
            if model::reads(t, x) {
                let i = choose|i: int|
                    0 <= i < t.len() && (#[trigger] t[i]).0 == x && t[i].1.is_source;
                assert(links[i].0 == x && links[i].1.is_source);
            }
        }
        if validity::distinct_links(links) {
            assert forall|i: int, j: int|
                0 <= i < t.len() && 0 <= j < t.len() && i != j implies (#[trigger] t[i]).0 != (
            #[trigger] t[j]).0 by {
                if i < n && j < n {
                    assert(links[i].0 != links[j].0);
                }
            }
        }
    }
}

// ---------------------------------------------------------------------------
// Link by link
// ---------------------------------------------------------------------------

/// A filter followed by a map, part by part and on a single link.
proof fn lemma_part_by_part<B>(
    a: Seq<Link>,
    b: Seq<Link>,
    l: Link,
    keep: spec_fn(Link) -> bool,
    to: spec_fn(Link) -> B,
)
    ensures
        (a + b).filter(keep).map_values(to) == a.filter(keep).map_values(to) + b.filter(
            keep,
        ).map_values(to),
        Seq::<Link>::empty().filter(keep).map_values(to) == Seq::<B>::empty(),
        seq![l].filter(keep).map_values(to) == if keep(l) {
            seq![to(l)]
        } else {
            Seq::empty()
        },
{
    Seq::filter_distributes_over_add(a, b, keep);
    assert((a.filter(keep) + b.filter(keep)).map_values(to) =~= a.filter(keep).map_values(to)
        + b.filter(keep).map_values(to));
    reveal_with_fuel(Seq::filter, 2);
    assert(seq![l].drop_last() =~= Seq::<Link>::empty());
    assert(seq![l].filter(keep) =~= if keep(l) {
        seq![l]
    } else {
        Seq::empty()
    });
    assert(seq![l].filter(keep).map_values(to) =~= if keep(l) {
        seq![to(l)]
    } else {
        Seq::empty()
    });
    assert(Seq::<Link>::empty().filter(keep).map_values(to) =~= Seq::<B>::empty());
}

/// The signals that are read, that are written, and that are written by what the effect does,
/// come from the links one by one and in their order: each link gives its signal or nothing.
pub proof fn law_signals_link_by_link(a: Seq<Link>, b: Seq<Link>, l: Link)
    ensures
        model::sources_of(a + b) == model::sources_of(a) + model::sources_of(b),
        model::outputs_of(a + b) == model::outputs_of(a) + model::outputs_of(b),
        model::written_of(a + b) == model::written_of(a) + model::written_of(b),
        model::sources_of(seq![l]) == if l.1.is_source {
            seq![l.0]
        } else {
            Seq::empty()
        },
        model::outputs_of(seq![l]) == if l.1.is_output {
            seq![l.0]
        } else {
            Seq::empty()
        },
        model::written_of(seq![l]) == if l.1.is_output && !l.1.is_own {
            seq![l.0]
        } else {
            Seq::empty()
        },
{
    let signal = |l: Link| l.0;
    lemma_part_by_part(a, b, l, |l: Link| l.1.is_source, signal);
    lemma_part_by_part(a, b, l, |l: Link| l.1.is_output, signal);
    lemma_part_by_part(a, b, l, |l: Link| l.1.is_output && !l.1.is_own, signal);
}

/// When a signal is read no more, its link goes if it was only read, and is otherwise kept as
/// it was but for that; all other links stay as they are. When nothing is read any more, that
/// holds of every link. Before a run, only the link of a computed value to its own signal is
/// kept.
pub proof fn law_unlink_link_by_link(a: Seq<Link>, b: Seq<Link>, l: Link, g: SignalId)
    ensures
        model::unlink_source(a + b, g) == model::unlink_source(a, g) + model::unlink_source(b, g),
        model::unlink_sources(a + b) == model::unlink_sources(a) + model::unlink_sources(b),
        model::own_links(a + b) == model::own_links(a) + model::own_links(b),
        ({
            let unread = (
                l.0,
                SignalRelation {
                    is_source: false,
                    is_output: l.1.is_output,
                    from_ui: l.1.from_ui,
                    is_own: l.1.is_own,
                },
            );
            &&& model::unlink_source(seq![l], g) == if l.0 != g {
                seq![l]
            } else if l.1.is_output {
                seq![unread]
            } else {
                Seq::empty()
            }
            &&& model::unlink_sources(seq![l]) == if l.1.is_output {
                seq![unread]
            } else {
                Seq::empty()
            }
            &&& model::own_links(seq![l]) == if l.1.is_own {
                seq![unread]
            } else {
                Seq::empty()
            }
        }),
{
    lemma_part_by_part(a, b, l, model::stays_without(g), model::unread_of(g));
    lemma_part_by_part(a, b, l, |l: Link| l.1.is_output, |l: Link| model::unread(l));
    lemma_part_by_part(a, b, l, |l: Link| l.1.is_own, |l: Link| model::unread(l));
}

/// A read marks the link to the signal as read, and leaves what else the link says; where
/// there is none, one comes last that says nothing else. No other link changes.
pub proof fn law_read_marks_one_link(links: Seq<Link>, g: SignalId)
    ensures
        ({
            let t = model::link_source(links, g);
            &&& model::linked(links, g) ==> t.len() == links.len()
            &&& !model::linked(links, g) ==> t.len() == links.len() + 1 && t.last() == (
                g,
                SignalRelation {
                    is_source: true,
                    is_output: false,
                    from_ui: false,
                    is_own: false,
                },
            )
            &&& forall|i: int|
                0 <= i < links.len() ==> #[trigger] t[i] == (
                    links[i].0,
                    SignalRelation {
                        is_source: links[i].1.is_source || links[i].0 == g,
                        is_output: links[i].1.is_output,
                        from_ui: links[i].1.from_ui,
                        is_own: links[i].1.is_own,
                    },
                )
        }),
{
}

/// A write marks the link to the signal as written, and leaves whether it is read or the
/// effect's own; where there is none, one comes last that says nothing else. No other link
/// changes. The link counts as written from the UI if this write comes from there and all
/// writes before it did.
pub proof fn law_write_marks_one_link(links: Seq<Link>, g: SignalId, from_ui: bool)
    ensures
        ({
            let t = model::link_output(links, g, from_ui);
            &&& model::linked(links, g) ==> t.len() == links.len()
            &&& !model::linked(links, g) ==> t.len() == links.len() + 1 && t.last() == (
                g,
                SignalRelation { is_source: false, is_output: true, from_ui, is_own: false },
            )
            &&& forall|i: int|
                0 <= i < links.len() && links[i].0 != g ==> #[trigger] t[i] == links[i]
            &&& forall|i: int|
                0 <= i < links.len() && links[i].0 == g ==> {
                    &&& (#[trigger] t[i]).0 == g
                    &&& t[i].1.is_source == links[i].1.is_source
                    &&& t[i].1.is_own == links[i].1.is_own
                    &&& t[i].1.is_output
                    &&& !from_ui ==> !t[i].1.from_ui
                    &&& from_ui && links[i].1.is_output ==> t[i].1.from_ui == links[i].1.from_ui
                    &&& from_ui && !links[i].1.is_output ==> t[i].1.from_ui
                }
        }),
{
}

/// Of two writes in one run, one from elsewhere than the UI is enough: only if both come from
/// the UI the signal counts as written from there, whichever comes first.
pub proof fn law_two_writes(links: Seq<Link>, g: SignalId, first: bool, second: bool)
    requires
        !model::linked(links, g),
    ensures
        ({
            let t = model::link_output(model::link_output(links, g, first), g, second);
            &&& t.len() == links.len() + 1
            &&& t.last().0 == g
            &&& t.last().1.from_ui == (first && second)
            &&& t == model::link_output(model::link_output(links, g, second), g, first)
        }),
{
    let a = model::link_output(links, g, first);
    let b = model::link_output(links, g, second);
    let n = links.len() as int;
    assert(a[n].0 == g && b[n].0 == g);
    assert(model::linked(a, g) && model::linked(b, g));
    let t = model::link_output(a, g, second);
    let u = model::link_output(b, g, first);
    assert forall|i: int| 0 <= i < t.len() implies #[trigger] t[i] == u[i] by {
        if i < n {
            assert(links[i].0 != g);
            assert(a[i] == links[i] && b[i] == links[i]);
        }
    }
    assert(t =~= u);
}

/// A computed value's own signal is a link that is written, not read, not from the UI, and
/// the effect's own; it comes last, and no other link changes.
pub proof fn law_own_link_comes_last(links: Seq<Link>, g: SignalId)
    ensures
        links.is_prefix_of(model::link_own(links, g)),
        model::linked(links, g) ==> model::link_own(links, g) == links,
        !model::linked(links, g) ==> model::link_own(links, g).len() == links.len() + 1
            && model::link_own(links, g).last() == (
            g,
            SignalRelation { is_source: false, is_output: true, from_ui: false, is_own: true },
        ),
{
    let t = model::link_own(links, g);
    assert(links =~= t.subrange(0, links.len() as int));
}

} // verus!
