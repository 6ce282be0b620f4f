//! Signals: markers that track who depends on a value kept elsewhere.
use vstd::prelude::*;

use crate::arena::effect_arena;
use crate::arena::effect_arena::EffectId;
use crate::arena::generations;
use crate::arena::signal_arena;
use crate::arena::signal_arena::SignalId;
use crate::arena::signal_arena::SignalMetadata;
use crate::effect;
use crate::model::facts;
use crate::runtime::Runtime;
use crate::transaction;

verus! {

/// Lightweight reactive marker that tracks dependencies without owning data.
///
/// The value stays with its owner, who calls `track_dependency` on a read and
/// `emit` after a change. Its owner alone can give it up, so its slot is enough to
/// find it.
pub struct Signal {
    /// Where the arena holds it.
    pub slot: u32,
}

impl Signal {
    /// Create a signal in the arena.
    pub fn new(rt: &mut Runtime) -> (r: Self)
        ensures
            exists|key: usize|
                #![trigger old(rt)@.vacant_signal(key as nat)]
                old(rt)@.vacant_signal(key as nat) && r.slot == key as u32 && final(rt)@
                    == old(rt)@.insert_signal(key as nat, Seq::empty()),
    {
        let metadata = SignalMetadata::new();
        let node_id = signal_arena::signal_arena_insert(rt, metadata);
        Signal { slot: node_id.0 }
    }

    /// The identifier of this signal.
    pub fn node_id(&self, rt: &Runtime) -> (r: SignalId)
        ensures
            r == rt@.signal_at(self.slot),
    {
        SignalId(self.slot, generations::at(&rt.signal_gens, self.slot as usize))
    }

    /// As `node_id`.
    pub fn id(&self, rt: &Runtime) -> (r: SignalId)
        ensures
            r == rt@.signal_at(self.slot),
    {
        self.node_id(rt)
    }

    /// The signal with a given identifier.
    pub fn from_raw(id: SignalId) -> (r: Self)
        ensures
            r.slot == id.0,
    {
        Signal { slot: id.0 }
    }

    /// Begin to bring this signal up to date, and then to track it as a dependency of
    /// the current effect, if there is one.
    pub fn track_dependency(&self, rt: &mut Runtime)
        ensures
            final(rt)@ == old(rt)@.pull_and_track(old(rt)@.signal_at(self.slot)),
    {
        self.node_id(rt).track_dependency(rt);
    }

    /// Emit a change notification to all subscribers.
    pub fn emit(&self, rt: &mut Runtime)
        ensures
            final(rt)@ == old(rt)@.emit(old(rt)@.signal_at(self.slot), false),
    {
        self.emit_from_api(rt);
    }

    /// Emit from the API: the data has changed. All subscribers are notified.
    pub fn emit_from_api(&self, rt: &mut Runtime)
        ensures
            final(rt)@ == old(rt)@.emit(old(rt)@.signal_at(self.slot), false),
    {
        self.emit_with_origin(rt, false);
    }

    /// Emit from the UI: internal state of the UI has changed. Subscribers that are
    /// not told of such changes are skipped.
    pub fn emit_from_ui(&self, rt: &mut Runtime)
        ensures
            final(rt)@ == old(rt)@.emit(old(rt)@.signal_at(self.slot), true),
    {
        self.emit_with_origin(rt, true);
    }

    /// Register the current effect as a writer, then notify the subscribers. While UI
    /// updates are suppressed, every change counts as one from the UI.
    fn emit_with_origin(&self, rt: &mut Runtime, is_from_ui: bool)
        ensures
            final(rt)@ == old(rt)@.emit(old(rt)@.signal_at(self.slot), is_from_ui),
    {
        let node_id = self.node_id(rt);
        let ui = is_from_ui || transaction::is_ui_update_suppressed(rt);
        if let Some(effect_id) = effect_arena::current_effect(rt) {
            if effect_id.has_source(rt, node_id) {
                rt.local.warning = Some((effect_id, node_id));
                node_id.remove_subscriber(rt, effect_id);
                effect_id.remove_source(rt, node_id);
            }
            effect_id.add_output_from(rt, node_id, ui);
            signal_arena::add_signal_writer(rt, node_id, effect_id);
        }
        proof {
            assert(rt@ == old(rt)@.register_writer(node_id, ui));
        }
        Self::notify_subscribers(rt, node_id, ui);
    }

    /// Notify the subscribers, and schedule effect processing unless a transaction is
    /// open or an effect runs.
    fn notify_subscribers(rt: &mut Runtime, node_id: SignalId, is_from_ui: bool)
        ensures
            final(rt)@ == old(rt)@.notify_subscribers(node_id, is_from_ui).schedule_if_idle(),
    {
        signal_arena::notify_all(rt, node_id, is_from_ui);
        if !transaction::is_transaction_active(rt) && effect_arena::current_effect(rt).is_none() {
            effect::schedule_effect_processing(rt);
        }
    }

    /// Subscribe an effect to this signal.
    pub fn subscribe(&self, rt: &mut Runtime, effect_id: EffectId)
        ensures
            final(rt)@ == old(rt)@.add_subscriber(old(rt)@.signal_at(self.slot), effect_id),
    {
        self.node_id(rt).add_subscriber(rt, effect_id);
    }

    /// Unsubscribe an effect from this signal.
    pub fn unsubscribe(&self, rt: &mut Runtime, effect_id: EffectId)
        ensures
            final(rt)@ == old(rt)@.remove_subscriber(old(rt)@.signal_at(self.slot), effect_id),
    {
        self.node_id(rt).remove_subscriber(rt, effect_id);
    }

    /// Give the signal up: no subscriber reads it any more, and the arena holds it no
    /// more.
    pub fn dispose(self, rt: &mut Runtime)
        ensures
            final(rt)@ == old(rt)@.dispose_signal(old(rt)@.signal_at(self.slot)),
    {
        let node_id = self.node_id(rt);
        let subs = node_id.subscribers(rt);
        let ghost start = rt@;
        let mut i: usize = 0;
        proof {
            assert(subs@.take(0) =~= Seq::empty());
            facts::lemma_forget_none(start, node_id);
        }
        while i < subs.len()
            invariant
                i <= subs.len(),
                rt@ == start.forget_source(subs@.take(i as int), node_id),
            decreases subs.len() - i,
        {
            proof {
                facts::lemma_forget_push(
                    start,
                    subs@.take(i as int),
                    subs@[i as int],
                    node_id,
                );
                assert(subs@.take(i + 1) =~= subs@.take(i as int).push(subs@[i as int]));
            }
            subs[i].remove_source(rt, node_id);
            i = i + 1;
        }
        proof {
            assert(subs@.take(i as int) =~= subs@);
        }
        signal_arena::signal_arena_remove(rt, node_id);
    }
}

} // verus!
