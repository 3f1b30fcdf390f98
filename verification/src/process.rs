//! The cooperative scheduler handle: a token carrying the time slice's
//! remaining reductions, suspending (by accounting) when the budget crosses
//! the context threshold.
use vstd::prelude::*;
use crate::external::CONTEXT_REDS;

verus! {

/// Budget accounting for one yielding task: `fcalls` counts charged
/// reductions downward from zero; crossing `-CONTEXT_REDS` suspends the task
/// and the counter restarts at zero when it resumes.
#[derive(Clone, Debug)]
pub struct ReductionCountingProcess {
    fcalls: isize,
}

impl ReductionCountingProcess {
    /// The reduction counter: zero at a slice's start, decreasing as work is
    /// charged, always above `-CONTEXT_REDS`.
    pub closed spec fn spec_fcalls(&self) -> int {
        self.fcalls as int
    }

    /// The counter stays within one time slice's budget.
    pub open spec fn wf(&self) -> bool {
        -(CONTEXT_REDS as int) < self.spec_fcalls() <= 0
    }

    /// Reductions consumed so far in this slice.
    pub open spec fn spec_consumed(&self) -> int {
        -self.spec_fcalls()
    }

    /// Reductions remaining in this slice.
    pub open spec fn spec_remaining(&self) -> int {
        CONTEXT_REDS as int + self.spec_fcalls()
    }

    /// A fresh handle with a full time slice.
    pub fn new() -> (r: Self)
        ensures
            r.wf(),
            r.spec_fcalls() == 0,
    {
        ReductionCountingProcess { fcalls: 0 }
    }

    /// Forces an immediate suspension; the counter restarts with the slice
    /// that begins on resume.
    pub fn bump_all_reds(&mut self)
        requires
            old(self).wf(),
        ensures
            final(self).wf(),
            final(self).spec_fcalls() == 0,
    {
        self.fcalls = 0;
    }

    /// Charges `gc` reductions; when the slice is exhausted the handle
    /// suspends and the next slice begins with a reset counter.
    pub fn bump_reds(&mut self, gc: isize)
        requires
            old(self).wf(),
            0 <= gc,
        ensures
            final(self).wf(),
            gc >= old(self).spec_remaining() ==> final(self).spec_fcalls() == 0,
            gc < old(self).spec_remaining()
                ==> final(self).spec_fcalls() == old(self).spec_fcalls() - gc,
    {
        let rem: isize = CONTEXT_REDS + self.fcalls;
        if gc >= rem {
            self.fcalls = 0;
        } else {
            self.fcalls = self.fcalls - gc;
        }
    }

    /// Reductions consumed so far in this slice.
    pub fn get_consumed_reds(&self) -> (r: isize)
        requires
            self.wf(),
        ensures
            r == self.spec_consumed(),
    {
        -self.fcalls
    }

    /// Reductions remaining in this slice.
    pub fn get_remaining_reds(&self) -> (r: isize)
        requires
            self.wf(),
        ensures
            r == self.spec_remaining(),
    {
        CONTEXT_REDS + self.fcalls
    }

    /// Percentage of the slice consumed, clamped to `1..=100`.
    pub fn get_timeslice_pct(&self) -> (r: isize)
        requires
            self.wf(),
        ensures
            r == spec_pct(self.spec_consumed()),
    {
        let mut pct: isize = (-self.fcalls) * 100 / CONTEXT_REDS;
        if pct < 1 {
            pct = 1;
        } else if pct > 100 {
            pct = 100;
        }
        pct
    }
}

/// The clamped percentage the handle reports for a consumed amount.
pub open spec fn spec_pct(consumed: int) -> int {
    let raw = consumed * 100 / (CONTEXT_REDS as int);
    if raw < 1 {
        1
    } else if raw > 100 {
        100
    } else {
        raw
    }
}

/// A scheduler handle: `Blocking` enforces no budget and never suspends;
/// `Yielding` charges reductions against `CONTEXT_REDS` per slice.
#[derive(Clone, Debug)]
pub enum Process {
    Blocking,
    Yielding(ReductionCountingProcess),
}

impl Process {
    /// A well-formed handle: blocking, or yielding within budget.
    pub open spec fn wf(&self) -> bool {
        match self {
            Process::Blocking => true,
            Process::Yielding(p) => p.wf(),
        }
    }

    /// A handle with no budget enforcement.
    pub fn blocking() -> (r: Self)
        ensures
            r is Blocking,
            r.wf(),
    {
        Process::Blocking
    }

    /// A handle that counts reductions and suspends on exhaustion.
    pub fn yielding() -> (r: Self)
        ensures
            r is Yielding,
            r.wf(),
            r->Yielding_0.spec_fcalls() == 0,
    {
        Process::Yielding(ReductionCountingProcess::new())
    }

    /// Forces an immediate suspension of a yielding handle.
    pub fn bump_all_reds(&mut self)
        requires
            old(self).wf(),
        ensures
            final(self).wf(),
            *old(self) is Blocking ==> *final(self) == *old(self),
            *old(self) is Yielding ==> *final(self) is Yielding
                && final(self)->Yielding_0.spec_fcalls() == 0,
    {
        match self {
            Process::Blocking => (),
            Process::Yielding(p) => p.bump_all_reds(),
        }
    }

    /// Charges `gc` reductions against the budget.
    pub fn bump_reds(&mut self, gc: isize)
        requires
            old(self).wf(),
            0 <= gc,
        ensures
            final(self).wf(),
            *old(self) is Blocking ==> *final(self) == *old(self),
            *old(self) is Yielding ==> *final(self) is Yielding,
    {
        match self {
            Process::Blocking => (),
            Process::Yielding(p) => p.bump_reds(gc),
        }
    }

    /// Reductions consumed in the current slice; a blocking handle reports 0.
    pub fn get_consumed_reds(&self) -> (r: isize)
        requires
            self.wf(),
        ensures
            self is Blocking ==> r == 0,
            self is Yielding ==> r == self->Yielding_0.spec_consumed(),
    {
        match self {
            Process::Blocking => 0,
            Process::Yielding(p) => p.get_consumed_reds(),
        }
    }

    /// Reductions remaining in the current slice; a blocking handle reports 0.
    pub fn get_remaining_reds(&self) -> (r: isize)
        requires
            self.wf(),
        ensures
            self is Blocking ==> r == 0,
            self is Yielding ==> r == self->Yielding_0.spec_remaining(),
    {
        match self {
            Process::Blocking => 0,
            Process::Yielding(p) => p.get_remaining_reds(),
        }
    }

    /// Percentage of the slice consumed; a blocking handle reports 1.
    pub fn get_timeslice_pct(&self) -> (r: isize)
        requires
            self.wf(),
        ensures
            self is Blocking ==> r == 1,
            self is Yielding ==> r == spec_pct(self->Yielding_0.spec_consumed()),
    {
        match self {
            Process::Blocking => 1,
            Process::Yielding(p) => p.get_timeslice_pct(),
        }
    }
}

/// Budget accounting: in a yielding handle, what was consumed and what
/// remains always partition one context budget.
pub proof fn lemma_budget_accounting(p: ReductionCountingProcess)
    requires
        p.wf(),
    ensures
        p.spec_consumed() + p.spec_remaining() == CONTEXT_REDS as int,
{
}

} // verus!
