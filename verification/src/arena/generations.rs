//! How many occupants the slots of an arena have had, by which stale identifiers are told
//! from live ones.
use vstd::prelude::*;

use crate::model::graph;

verus! {

/// How many occupants a slot has had before.
pub(crate) fn at(gens: &Vec<u64>, slot: usize) -> (r: u64)
    ensures
        r == graph::gen_at(gens@, slot as int),
{
    if slot < gens.len() {
        gens[slot]
    } else {
        0
    }
}

/// The occupant of a slot has left.
pub(crate) fn bump(gens: &mut Vec<u64>, slot: usize)
    ensures
        final(gens)@ == graph::bumped(old(gens)@, slot as int),
{
    while gens.len() <= slot
        invariant
            gens.len() >= old(gens).len(),
            gens.len() > old(gens).len() ==> gens.len() <= slot + 1,
            forall|j: int|
                0 <= j < gens.len() ==> #[trigger] gens@[j] == graph::gen_at(old(gens)@, j),
        decreases slot + 1 - gens.len(),
    {
        gens.push(0);
    }
    let next = gens[slot].wrapping_add(1);
    gens.set(slot, next);
    proof {
        assert(gens@ =~= graph::bumped(old(gens)@, slot as int));
    }
}

} // verus!
