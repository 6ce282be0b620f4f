//! Transactions: several changes, one round of effects.
use vstd::prelude::*;

use crate::effect;
use crate::runtime::Frame;
use crate::runtime::Runtime;

verus! {

/// Whether the effect loop has to wait, because some thread is in a transaction.
pub fn wait_for_transactions(rt: &Runtime) -> (r: bool)
    ensures
        r == (rt@.active > 0),
{
    rt.active > 0
}

/// Whether the running thread is in a transaction.
pub fn is_transaction_active(rt: &Runtime) -> (r: bool)
    ensures
        r == (rt@.local.depth > 0),
{
    rt.local.depth > 0
}

/// Whether UI updates are suppressed.
pub fn is_ui_update_suppressed(rt: &Runtime) -> (r: bool)
    ensures
        r == rt@.local.suppress,
{
    rt.local.suppress
}

/// What is to be restored when a transaction ends.
pub struct TransactionGuard {
    /// Whether UI updates were suppressed before it.
    pub prev_suppress: bool,
}

impl TransactionGuard {
    /// End the transaction. If it is the outermost one, the pending effects begin to
    /// be processed, and processing is scheduled after that.
    pub fn finish(self, rt: &mut Runtime)
        ensures
            final(rt)@ == old(rt)@.exit(self.prev_suppress),
    {
        rt.local.suppress = self.prev_suppress;
        rt.local.depth = if rt.local.depth == 0 {
            0
        } else {
            rt.local.depth - 1
        };
        if rt.local.depth == 0 {
            rt.active = if rt.active == 0 {
                0
            } else {
                rt.active - 1
            };
            rt.push_frame(Frame::Schedule);
            effect::flush_effects(rt);
        }
    }
}

/// Batches several changes into one round of effects.
pub struct Transaction;

impl Transaction {
    /// Enter a transaction: until its guard is finished, changes are collected and no
    /// processing is scheduled.
    pub fn begin(rt: &mut Runtime, suppress_ui: bool) -> (r: TransactionGuard)
        requires
            old(rt)@.local.depth < usize::MAX,
            old(rt)@.active < usize::MAX,
        ensures
            r.prev_suppress == old(rt)@.local.suppress,
            final(rt)@ == old(rt)@.enter(suppress_ui),
    {
        let prev_suppress = rt.local.suppress;
        rt.local.suppress = prev_suppress || suppress_ui;
        if rt.local.depth == 0 {
            rt.active = rt.active + 1;
        }
        rt.local.depth = rt.local.depth + 1;
        TransactionGuard { prev_suppress }
    }

    /// Call a function within a transaction.
    pub fn run<F, R>(rt: &mut Runtime, f: F) -> (r: R) where F: FnOnce(&mut Runtime) -> R
        requires
            old(rt)@.local.depth < usize::MAX,
            old(rt)@.active < usize::MAX,
            forall|m: &mut Runtime|
                (*m)@ == old(rt)@.enter(false) ==> #[trigger] f.requires((m,)),
        ensures
            exists|m: &mut Runtime|
                {
                    &&& (*m)@ == old(rt)@.enter(false)
                    &&& #[trigger] f.ensures((m,), r)
                    &&& final(rt)@ == (*final(m))@.exit(old(rt)@.local.suppress)
                },
    {
        Self::run_with_suppress(rt, f, false)
    }

    /// Call a function within a transaction, UI updates suppressed.
    pub fn no_ui_updates<F, R>(rt: &mut Runtime, f: F) -> (r: R) where
        F: FnOnce(&mut Runtime) -> R,

        requires
            old(rt)@.local.depth < usize::MAX,
            old(rt)@.active < usize::MAX,
            forall|m: &mut Runtime|
                (*m)@ == old(rt)@.enter(true) ==> #[trigger] f.requires((m,)),
        ensures
            exists|m: &mut Runtime|
                {
                    &&& (*m)@ == old(rt)@.enter(true)
                    &&& #[trigger] f.ensures((m,), r)
                    &&& final(rt)@ == (*final(m))@.exit(old(rt)@.local.suppress)
                },
    {
        Self::run_with_suppress(rt, f, true)
    }

    /// Call a function within a transaction.
    fn run_with_suppress<F, R>(rt: &mut Runtime, f: F, suppress_ui: bool) -> (r: R) where
        F: FnOnce(&mut Runtime) -> R,

        requires
            old(rt)@.local.depth < usize::MAX,
            old(rt)@.active < usize::MAX,
            forall|m: &mut Runtime|
                (*m)@ == old(rt)@.enter(suppress_ui) ==> #[trigger] f.requires((m,)),
        ensures
            exists|m: &mut Runtime|
                {
                    &&& (*m)@ == old(rt)@.enter(suppress_ui)
                    &&& #[trigger] f.ensures((m,), r)
                    &&& final(rt)@ == (*final(m))@.exit(old(rt)@.local.suppress)
                },
    {
        let guard = Self::begin(rt, suppress_ui);
        let r = f(rt);
        guard.finish(rt);
        r
    }
}

} // verus!
