//! The apply engine.
//!
//! Applying a migration means running its script and recording its
//! identifier in the history inside one atomic transactional unit; that unit
//! is database work the driver performs. The engine keeps every decision:
//! which identifier runs next, in what order, and where to stop. The driver
//! asks for the next action, performs it, and reports back whether the unit
//! committed. The contracts pin down that the identifiers committed are
//! always exactly a prefix of the pending order, that processing never skips
//! or reorders, and that a failure halts the run with everything after the
//! failing identifier unattempted.

use crate::reconcile::spec_pending;
use vstd::prelude::*;

verus! {

/// What the driver should do next.
pub enum NextAction {
    /// Run this migration's script and record its identifier, as one atomic
    /// transactional unit.
    Apply(String),
    /// Every pending migration has committed; the run succeeded.
    Done,
    /// A migration failed; the run is over and nothing further is attempted.
    Halted,
}

/// Drives one run over an ordered pending sequence, committing a growing
/// prefix of it.
pub struct ApplyEngine {
    pending: Vec<String>,
    committed: usize,
    failed: bool,
}

impl ApplyEngine {
    /// The engine is well formed: the committed count never passes the end,
    /// and a failure always points at the migration that caused it.
    pub closed spec fn wf(&self) -> bool {
        &&& self.committed <= self.pending@.len()
        &&& (self.failed ==> self.committed < self.pending@.len())
    }

    /// The full pending order this run was started with.
    pub closed spec fn pending_ids(&self) -> Seq<Seq<char>> {
        self.pending.deep_view()
    }

    /// The identifiers whose transactional units have committed, in order:
    /// always exactly a prefix of the pending order.
    pub closed spec fn applied_ids(&self) -> Seq<Seq<char>> {
        self.pending.deep_view().take(self.committed as int)
    }

    /// Whether a migration has failed and halted the run.
    pub closed spec fn has_failed(&self) -> bool {
        self.failed
    }

    /// The identifier of the failing migration, once the run has halted.
    pub closed spec fn failed_id(&self) -> Seq<char> {
        self.pending.deep_view()[self.committed as int]
    }

    /// Starts a run over the given pending sequence; nothing is committed
    /// yet.
    pub fn new(pending: Vec<String>) -> (e: ApplyEngine)
        ensures
            e.wf(),
            e.pending_ids() == pending.deep_view(),
            e.applied_ids() == Seq::<Seq<char>>::empty(),
            !e.has_failed(),
    {
        let e = ApplyEngine { pending, committed: 0, failed: false };
        proof {
            assert(e.applied_ids() =~= Seq::<Seq<char>>::empty());
        }
        e
    }

    /// The next action of the run: the first pending migration not yet
    /// committed, in pending order; `Done` when none is left; `Halted` once
    /// a migration has failed.
    pub fn next_action(&self) -> (a: NextAction)
        requires
            self.wf(),
        ensures
            match a {
                NextAction::Apply(id) => !self.has_failed() && self.applied_ids().len()
                    < self.pending_ids().len() && id@ == self.pending_ids()[self.applied_ids().len() as int],
                NextAction::Done => !self.has_failed() && self.applied_ids() == self.pending_ids(),
                NextAction::Halted => self.has_failed(),
            },
    {
        if self.failed {
            NextAction::Halted
        } else if self.committed == self.pending.len() {
            proof {
                assert(self.applied_ids() =~= self.pending_ids());
            }
            NextAction::Done
        } else {
            let id = self.pending[self.committed].clone();
            proof {
                assert(self.pending_ids()[self.committed as int]
                    == self.pending@[self.committed as int]@);
            }
            NextAction::Apply(id)
        }
    }

    /// Records that the current migration's transactional unit committed:
    /// the applied prefix grows by exactly that one identifier, and the
    /// pending order is unchanged.
    pub fn record_success(&mut self)
        requires
            old(self).wf(),
            !old(self).has_failed(),
            old(self).applied_ids().len() < old(self).pending_ids().len(),
        ensures
            final (self).wf(),
            !final (self).has_failed(),
            final (self).pending_ids() == old(self).pending_ids(),
            final (self).applied_ids() == old(self).applied_ids().push(
                old(self).pending_ids()[old(self).applied_ids().len() as int],
            ),
    {
        proof {
            let dv = self.pending.deep_view();
            let c = self.committed as int;
            assert(self.applied_ids().len() == c);
            assert(self.committed < self.pending.len());
            assert(dv.take(c + 1) =~= dv.take(c).push(dv[c]));
        }
        self.committed = self.committed + 1;
    }

    /// Records that the current migration's transactional unit aborted: the
    /// run halts, nothing new is recorded, and every migration from the
    /// failing one on stays unapplied.
    pub fn record_failure(&mut self)
        requires
            old(self).wf(),
            !old(self).has_failed(),
            old(self).applied_ids().len() < old(self).pending_ids().len(),
        ensures
            final (self).wf(),
            final (self).has_failed(),
            final (self).pending_ids() == old(self).pending_ids(),
            final (self).applied_ids() == old(self).applied_ids(),
            final (self).failed_id() == old(self).pending_ids()[old(self).applied_ids().len() as int],
    {
        self.failed = true;
    }

    /// The identifiers committed so far, in the order they were applied.
    pub fn applied_so_far(&self) -> (r: Vec<String>)
        requires
            self.wf(),
        ensures
            r.deep_view() == self.applied_ids(),
    {
        let mut r: Vec<String> = Vec::new();
        let mut i: usize = 0;
        proof {
            assert(r.deep_view() =~= self.pending.deep_view().take(0));
        }
        while i < self.committed
            invariant
                self.wf(),
                i <= self.committed,
                r.deep_view() == self.pending.deep_view().take(i as int),
            decreases self.committed - i,
        {
            let ghost prev = r.deep_view();
            proof {
                let dv = self.pending.deep_view();
                assert(dv.take(i + 1) =~= dv.take(i as int).push(dv[i as int]));
                assert(dv[i as int] == self.pending@[i as int]@);
            }
            r.push(self.pending[i].clone());
            proof {
                assert(r.deep_view() =~= prev.push(self.pending@[i as int]@));
            }
            i = i + 1;
        }
        r
    }

    /// The applied identifiers are a pointwise prefix of the pending order:
    /// the engine never skips and never reorders.
    pub proof fn lemma_applied_is_prefix(&self)
        requires
            self.wf(),
        ensures
            self.applied_ids().len() <= self.pending_ids().len(),
            forall|i: int|
                0 <= i < self.applied_ids().len() ==> self.applied_ids()[i]
                    == self.pending_ids()[i],
    {
    }

    /// A run started on a pending sequence without repeats commits each
    /// identifier at most once.
    pub proof fn lemma_applied_no_duplicates(&self)
        requires
            self.wf(),
            self.pending_ids().no_duplicates(),
        ensures
            self.applied_ids().no_duplicates(),
    {
    }
}

/// The decision taken by a run before any migration is applied.
pub enum RunPlan {
    /// Nothing to do: no source location, no valid candidate, or everything
    /// discovered is already applied. The run exits cleanly.
    NothingToApply,
    /// The ordered pending migrations this run must apply.
    Apply(Vec<String>),
}

/// Plans a run from what discovery found and what the history holds. The
/// plan is `NothingToApply` exactly when discovery found nothing or every
/// discovered identifier is already applied; otherwise it is the pending
/// sequence, in apply order.
pub fn plan_run(discovered: Option<Vec<String>>, applied: Vec<String>) -> (p: RunPlan)
    ensures
        match p {
            RunPlan::NothingToApply => match discovered {
                Option::None => true,
                Option::Some(files) => spec_pending(
                    files.deep_view(),
                    applied.deep_view().to_set(),
                ).len() == 0,
            },
            RunPlan::Apply(pending) => match discovered {
                Option::None => false,
                Option::Some(files) => pending.deep_view() == spec_pending(
                    files.deep_view(),
                    applied.deep_view().to_set(),
                ) && pending.deep_view().len() > 0,
            },
        },
{
    match discovered {
        Option::None => RunPlan::NothingToApply,
        Option::Some(files) => {
            let pending = crate::reconcile::filter_not_applied_migrations(applied, files);
            proof {
                assert(pending.deep_view().len() == pending@.len());
            }
            if pending.len() == 0 {
                RunPlan::NothingToApply
            } else {
                RunPlan::Apply(pending)
            }
        },
    }
}

} // verus!
