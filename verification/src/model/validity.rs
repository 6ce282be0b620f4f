//! What it means for a state to be valid.
//!
//! Nothing that the library does breaks [`State::wf`], as long as what is put into the
//! arenas was made by its own functions. Nor does it break [`State::anchored`], unless an
//! effect that has been destroyed while it runs goes on to read signals, or the arenas are
//! changed by hand.
use vstd::prelude::*;

use crate::arena::effect_arena::EffectId;
use crate::arena::signal_arena::SignalId;
use crate::model::EffectModel;
use crate::model::Link;
use crate::model::State;

verus! {

/// No two links are to the same signal.
pub open spec fn distinct_links(links: Seq<Link>) -> bool {
    forall|i: int, j: int|
        0 <= i < links.len() && 0 <= j < links.len() && i != j ==> (#[trigger] links[i]).0 != (
        #[trigger] links[j]).0
}

/// The subscribers of a slot are distinct.
pub open spec fn signal_slot_wf(slot: Option<Seq<EffectId>>) -> bool {
    match slot {
        Some(subs) => subs.no_duplicates(),
        None => true,
    }
}

/// The links of a slot are distinct.
pub open spec fn effect_slot_wf(slot: Option<EffectModel>) -> bool {
    match slot {
        Some(m) => distinct_links(m.signals),
        None => true,
    }
}

impl State {
    /// Nothing is twice where it should be once: no effect among the pending ones,
    /// the subscribers of a signal or its writers, no signal among the links of an
    /// effect.
    pub open spec fn wf(self) -> bool {
        &&& self.pending.no_duplicates()
        &&& forall|i: int|
            0 <= i < self.signals.len() ==> signal_slot_wf(#[trigger] self.signals[i])
        &&& forall|i: int|
            0 <= i < self.effects.len() ==> effect_slot_wf(#[trigger] self.effects[i])
        &&& forall|g: SignalId| #[trigger]
            self.writers.contains_key(g) ==> self.writers[g].no_duplicates()
    }

    /// Every subscriber of a live signal is a live effect that reads it.
    pub open spec fn anchored(self) -> bool {
        forall|g: SignalId, e: EffectId| #[trigger]
            self.subscribers(g).contains(e) ==> self.has_source(e, g)
    }
}

} // verus!
