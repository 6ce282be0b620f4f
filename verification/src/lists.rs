//! Vectors used as small sets and maps, in insertion order.
use vstd::prelude::*;

use crate::arena::effect_arena::EffectId;
use crate::arena::effect_arena::SignalRelation;
use crate::arena::signal_arena::SignalId;
use crate::model;
use crate::model::Link;

verus! {

/// What a filter keeps of a sequence that is one longer.
pub proof fn lemma_filter_push<A>(s: Seq<A>, x: A, keep: spec_fn(A) -> bool)
    ensures
        s.push(x).filter(keep) == (if keep(x) {
            s.filter(keep).push(x)
        } else {
            s.filter(keep)
        }),
{
    reveal(Seq::filter);
    assert(s.push(x).drop_last() =~= s);
}

/// A filter works from the front as it does from the back.
pub proof fn lemma_filter_first<A>(s: Seq<A>, keep: spec_fn(A) -> bool)
    requires
        s.len() > 0,
    ensures
        s.filter(keep) == (if keep(s[0]) {
            seq![s[0]] + s.drop_first().filter(keep)
        } else {
            s.drop_first().filter(keep)
        }),
{
    let head = seq![s[0]];
    assert(s =~= head + s.drop_first());
    Seq::filter_distributes_over_add(head, s.drop_first(), keep);
    assert(head =~= Seq::empty().push(s[0]));
    assert(Seq::<A>::empty().filter(keep) =~= Seq::empty()) by {
        reveal(Seq::filter);
    }
    lemma_filter_push(Seq::<A>::empty(), s[0], keep);
    assert(Seq::<A>::empty() + s.drop_first().filter(keep) =~= s.drop_first().filter(keep));
}

/// One step of a loop over a filtered prefix.
proof fn lemma_filter_take<A>(s: Seq<A>, i: int, keep: spec_fn(A) -> bool)
    requires
        0 <= i < s.len(),
    ensures
        s.take(i + 1).filter(keep) == (if keep(s[i]) {
            s.take(i).filter(keep).push(s[i])
        } else {
            s.take(i).filter(keep)
        }),
{
    assert(s.take(i + 1) =~= s.take(i).push(s[i]));
    lemma_filter_push(s.take(i), s[i], keep);
}

/// Whether `x` is in `v`.
pub(crate) fn contains(v: &Vec<EffectId>, x: EffectId) -> (r: bool)
    ensures
        r == v@.contains(x),
{
    let mut i: usize = 0;
    while i < v.len()
        invariant
            i <= v.len(),
            forall|j: int| 0 <= j < i ==> v@[j] != x,
        decreases v.len() - i,
    {
        if v[i] == x {
            return true;
        }
        i = i + 1;
    }
    false
}

/// Put `x` at the end of `v`, unless it is in it already.
pub(crate) fn insert_once(v: &mut Vec<EffectId>, x: EffectId)
    ensures
        final(v)@ == model::insert_once(old(v)@, x),
{
    if !contains(v, x) {
        v.push(x);
    }
}

/// The elements of `v` other than `x`, in order.
pub(crate) fn without(v: &Vec<EffectId>, x: EffectId) -> (r: Vec<EffectId>)
    ensures
        r@ == model::without(v@, x),
{
    let mut out: Vec<EffectId> = Vec::new();
    let ghost keep = model::other_than(x);
    let mut i: usize = 0;
    proof {
        reveal(Seq::filter);
        assert(v@.take(0).filter(keep) =~= Seq::empty());
    }
    while i < v.len()
        invariant
            i <= v.len(),
            keep == model::other_than(x),
            out@ == v@.take(i as int).filter(keep),
        decreases v.len() - i,
    {
        proof {
            lemma_filter_take(v@, i as int, keep);
        }
        if v[i] != x {
            out.push(v[i]);
        }
        i = i + 1;
    }
    proof {
        assert(v@.take(i as int) =~= v@);
    }
    out
}

/// A copy of `v`.
pub(crate) fn copy(v: &Vec<EffectId>) -> (r: Vec<EffectId>)
    ensures
        r@ == v@,
{
    let mut out: Vec<EffectId> = Vec::new();
    let mut i: usize = 0;
    while i < v.len()
        invariant
            i <= v.len(),
            out@ == v@.take(i as int),
        decreases v.len() - i,
    {
        out.push(v[i]);
        i = i + 1;
        proof {
            assert(v@.take(i as int) =~= v@.take(i - 1).push(v@[i - 1]));
        }
    }
    proof {
        assert(v@.take(i as int) =~= v@);
    }
    out
}

// ---------------------------------------------------------------------------
// Links
// ---------------------------------------------------------------------------

/// The empty list of links has neither sources nor outputs.
pub proof fn lemma_no_links()
    ensures
        model::sources_of(Seq::empty()) == Seq::<SignalId>::empty(),
        model::outputs_of(Seq::empty()) == Seq::<SignalId>::empty(),
{
    reveal(Seq::filter);
    assert(model::sources_of(Seq::empty()) =~= Seq::<SignalId>::empty());
    assert(model::outputs_of(Seq::empty()) =~= Seq::<SignalId>::empty());
}

/// The sources and outputs of a list of links that is one longer.
pub proof fn lemma_links_push(links: Seq<Link>, l: Link)
    ensures
        model::sources_of(links.push(l)) == (if l.1.is_source {
            model::sources_of(links).push(l.0)
        } else {
            model::sources_of(links)
        }),
        model::outputs_of(links.push(l)) == (if l.1.is_output {
            model::outputs_of(links).push(l.0)
        } else {
            model::outputs_of(links)
        }),
{
    lemma_filter_push(links, l, |l: Link| l.1.is_source);
    lemma_filter_push(links, l, |l: Link| l.1.is_output);
    let name = |l: Link| l.0;
    let src = links.filter(|l: Link| l.1.is_source);
    let out = links.filter(|l: Link| l.1.is_output);
    assert(src.push(l).map_values(name) =~= src.map_values(name).push(l.0));
    assert(out.push(l).map_values(name) =~= out.map_values(name).push(l.0));
}

/// The sources and outputs of a list of links, read from the front.
pub proof fn lemma_links_first(links: Seq<Link>)
    requires
        links.len() > 0,
    ensures
        model::sources_of(links) == (if links[0].1.is_source {
            seq![links[0].0] + model::sources_of(links.drop_first())
        } else {
            model::sources_of(links.drop_first())
        }),
        model::outputs_of(links) == (if links[0].1.is_output {
            seq![links[0].0] + model::outputs_of(links.drop_first())
        } else {
            model::outputs_of(links.drop_first())
        }),
{
    lemma_filter_first(links, |l: Link| l.1.is_source);
    lemma_filter_first(links, |l: Link| l.1.is_output);
    let name = |l: Link| l.0;
    let rest = links.drop_first();
    let src = rest.filter(|l: Link| l.1.is_source);
    let out = rest.filter(|l: Link| l.1.is_output);
    assert((seq![links[0]] + src).map_values(name) =~= seq![links[0].0] + src.map_values(name));
    assert((seq![links[0]] + out).map_values(name) =~= seq![links[0].0] + out.map_values(name));
}

/// There are no more sources, and no more outputs, than links.
pub proof fn lemma_sources_len(links: Seq<Link>)
    ensures
        model::sources_of(links).len() <= links.len(),
        model::outputs_of(links).len() <= links.len(),
{
    links.lemma_filter_len(|l: Link| l.1.is_source);
    links.lemma_filter_len(|l: Link| l.1.is_output);
}

/// Where the link to `signal` is; the length of `links` if there is none.
fn position(links: &Vec<Link>, signal: SignalId) -> (r: usize)
    ensures
        r <= links.len(),
        r < links.len() ==> links@[r as int].0 == signal,
        forall|j: int| 0 <= j < r ==> links@[j].0 != signal,
        r < links.len() <==> model::linked(links@, signal),
{
    let mut i: usize = 0;
    while i < links.len()
        invariant
            i <= links.len(),
            forall|j: int| 0 <= j < i ==> links@[j].0 != signal,
        decreases links.len() - i,
    {
        if links[i].0 == signal {
            return i;
        }
        i = i + 1;
    }
    i
}

/// Note that `signal` is read.
pub(crate) fn link_source(links: &mut Vec<Link>, signal: SignalId)
    ensures
        final(links)@ == model::link_source(old(links)@, signal),
{
    let first = position(links, signal);
    if first == links.len() {
        links.push(
            (
                signal,
                SignalRelation { is_source: true, is_output: false, from_ui: false, is_own: false },
            ),
        );
    } else {
        let ghost before = links@;
        let mut i: usize = 0;
        while i < links.len()
            invariant
                i <= links.len(),
                links.len() == before.len(),
                forall|j: int|
                    0 <= j < i ==> #[trigger] links@[j] == model::read_mark(before[j], signal),
                forall|j: int| i <= j < links.len() ==> #[trigger] links@[j] == before[j],
            decreases links.len() - i,
        {
            let l = links[i];
            if l.0 == signal {
                links.set(
                    i,
                    (
                        l.0,
                        SignalRelation {
                            is_source: true,
                            is_output: l.1.is_output,
                            from_ui: l.1.from_ui,
                            is_own: l.1.is_own,
                        },
                    ),
                );
            }
            i = i + 1;
        }
        proof {
            assert(links@ =~= before.map_values(|l: Link| model::read_mark(l, signal)));
        }
    }
}

/// Note that `signal` is written, from the UI or not.
pub(crate) fn link_output(links: &mut Vec<Link>, signal: SignalId, from_ui: bool)
    ensures
        final(links)@ == model::link_output(old(links)@, signal, from_ui),
{
    let first = position(links, signal);
    if first == links.len() {
        links.push(
            (signal, SignalRelation { is_source: false, is_output: true, from_ui, is_own: false }),
        );
    } else {
        let ghost before = links@;
        let mut i: usize = 0;
        while i < links.len()
            invariant
                i <= links.len(),
                links.len() == before.len(),
                forall|j: int|
                    0 <= j < i ==> #[trigger] links@[j] == model::write_mark(
                        before[j],
                        signal,
                        from_ui,
                    ),
                forall|j: int| i <= j < links.len() ==> #[trigger] links@[j] == before[j],
            decreases links.len() - i,
        {
            let l = links[i];
            if l.0 == signal {
                links.set(
                    i,
                    (
                        l.0,
                        SignalRelation {
                            is_source: l.1.is_source,
                            is_output: true,
                            from_ui: from_ui && (l.1.from_ui || !l.1.is_output),
                            is_own: l.1.is_own,
                        },
                    ),
                );
            }
            i = i + 1;
        }
        proof {
            assert(links@ =~= before.map_values(
                |l: Link| model::write_mark(l, signal, from_ui),
            ));
        }
    }
}

/// Note that `signal` is that of the value which the effect computes.
pub(crate) fn link_own(links: &mut Vec<Link>, signal: SignalId)
    ensures
        final(links)@ == model::link_own(old(links)@, signal),
{
    if position(links, signal) == links.len() {
        links.push(
            (
                signal,
                SignalRelation { is_source: false, is_output: true, from_ui: false, is_own: true },
            ),
        );
    }
}

/// Whether `signal` is read.
pub(crate) fn reads(links: &Vec<Link>, signal: SignalId) -> (r: bool)
    ensures
        r == model::reads(links@, signal),
{
    let mut i: usize = 0;
    while i < links.len()
        invariant
            i <= links.len(),
            forall|j: int|
                0 <= j < i ==> !((#[trigger] links@[j]).0 == signal && links@[j].1.is_source),
        decreases links.len() - i,
    {
        if links[i].0 == signal && links[i].1.is_source {
            return true;
        }
        i = i + 1;
    }
    false
}

/// The link `l`, no longer read.
fn unread(l: Link) -> (r: Link)
    ensures
        r == model::unread(l),
{
    (
        l.0,
        SignalRelation {
            is_source: false,
            is_output: l.1.is_output,
            from_ui: l.1.from_ui,
            is_own: l.1.is_own,
        },
    )
}

/// Note that `signal` is not read.
pub(crate) fn unlink_source(links: &mut Vec<Link>, signal: SignalId)
    ensures
        final(links)@ == model::unlink_source(old(links)@, signal),
{
    let ghost keep = model::stays_without(signal);
    let ghost change = model::unread_of(signal);
    let mut out: Vec<Link> = Vec::new();
    let mut i: usize = 0;
    proof {
        reveal(Seq::filter);
        assert(links@.take(0).filter(keep).map_values(change) =~= Seq::empty());
    }
    while i < links.len()
        invariant
            i <= links.len(),
            keep == model::stays_without(signal),
            change == model::unread_of(signal),
            out@ == links@.take(i as int).filter(keep).map_values(change),
        decreases links.len() - i,
    {
        let l = links[i];
        proof {
            lemma_filter_take(links@, i as int, keep);
            let prefix = links@.take(i as int).filter(keep);
            assert(prefix.push(l).map_values(change) =~= prefix.map_values(change).push(change(l)));
        }
        if l.0 != signal {
            out.push(l);
        } else if l.1.is_output {
            out.push(unread(l));
        }
        i = i + 1;
    }
    proof {
        assert(links@.take(i as int) =~= links@);
    }
    *links = out;
}

/// Note that nothing is read.
pub(crate) fn unlink_sources(links: &mut Vec<Link>)
    ensures
        final(links)@ == model::unlink_sources(old(links)@),
{
    let ghost keep = |l: Link| l.1.is_output;
    let ghost change = |l: Link| model::unread(l);
    let mut out: Vec<Link> = Vec::new();
    let mut i: usize = 0;
    proof {
        reveal(Seq::filter);
        assert(links@.take(0).filter(keep).map_values(change) =~= Seq::empty());
    }
    while i < links.len()
        invariant
            i <= links.len(),
            keep == (|l: Link| l.1.is_output),
            change == (|l: Link| model::unread(l)),
            out@ == links@.take(i as int).filter(keep).map_values(change),
        decreases links.len() - i,
    {
        let l = links[i];
        proof {
            lemma_filter_take(links@, i as int, keep);
            let prefix = links@.take(i as int).filter(keep);
            assert(prefix.push(l).map_values(change) =~= prefix.map_values(change).push(change(l)));
        }
        if l.1.is_output {
            out.push(unread(l));
        }
        i = i + 1;
    }
    proof {
        assert(links@.take(i as int) =~= links@);
    }
    *links = out;
}

/// The signals that are read, and those that are written.
pub(crate) fn split(links: &Vec<Link>) -> (r: (Vec<SignalId>, Vec<SignalId>))
    ensures
        r.0@ == model::sources_of(links@),
        r.1@ == model::outputs_of(links@),
{
    let mut sources: Vec<SignalId> = Vec::new();
    let mut outputs: Vec<SignalId> = Vec::new();
    let mut i: usize = 0;
    proof {
        lemma_no_links();
        assert(links@.take(0) =~= Seq::empty());
    }
    while i < links.len()
        invariant
            i <= links.len(),
            sources@ == model::sources_of(links@.take(i as int)),
            outputs@ == model::outputs_of(links@.take(i as int)),
        decreases links.len() - i,
    {
        let l = links[i];
        proof {
            assert(links@.take(i + 1) =~= links@.take(i as int).push(l));
            lemma_links_push(links@.take(i as int), l);
        }
        if l.1.is_source {
            sources.push(l.0);
        }
        if l.1.is_output {
            outputs.push(l.0);
        }
        i = i + 1;
    }
    proof {
        assert(links@.take(i as int) =~= links@);
    }
    (sources, outputs)
}

/// Forget a run: only the signal of a computed value stays. What was read, and what was
/// written.
pub(crate) fn forget_run(links: &mut Vec<Link>) -> (r: (Vec<SignalId>, Vec<SignalId>))
    ensures
        r.0@ == model::sources_of(old(links)@),
        r.1@ == model::written_of(old(links)@),
        final(links)@ == model::own_links(old(links)@),
{
    let (sources, _) = split(links);
    let ghost keep = |l: Link| l.1.is_own;
    let ghost change = |l: Link| model::unread(l);
    let ghost pick = |l: Link| l.1.is_output && !l.1.is_own;
    let ghost name = |l: Link| l.0;
    let mut written: Vec<SignalId> = Vec::new();
    let mut own: Vec<Link> = Vec::new();
    let mut i: usize = 0;
    proof {
        reveal(Seq::filter);
        assert(links@.take(0).filter(keep).map_values(change) =~= Seq::empty());
        assert(links@.take(0).filter(pick).map_values(name) =~= Seq::empty());
    }
    while i < links.len()
        invariant
            i <= links.len(),
            keep == (|l: Link| l.1.is_own),
            change == (|l: Link| model::unread(l)),
            pick == (|l: Link| l.1.is_output && !l.1.is_own),
            name == (|l: Link| l.0),
            own@ == links@.take(i as int).filter(keep).map_values(change),
            written@ == links@.take(i as int).filter(pick).map_values(name),
        decreases links.len() - i,
    {
        let l = links[i];
        proof {
            lemma_filter_take(links@, i as int, keep);
            lemma_filter_take(links@, i as int, pick);
            let a = links@.take(i as int).filter(keep);
            let b = links@.take(i as int).filter(pick);
            assert(a.push(l).map_values(change) =~= a.map_values(change).push(change(l)));
            assert(b.push(l).map_values(name) =~= b.map_values(name).push(l.0));
        }
        if l.1.is_own {
            own.push(unread(l));
        } else if l.1.is_output {
            written.push(l.0);
        }
        i = i + 1;
    }
    proof {
        assert(links@.take(i as int) =~= links@);
    }
    *links = own;
    (sources, written)
}

} // verus!
