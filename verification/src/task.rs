//! A step-driven task handle: a resumable unit of work that counts its own
//! reductions per time slice and tells the driver when to yield.
use vstd::prelude::*;

verus! {

/// What the driver should do after a charge: go on, or give the scheduler a
/// turn.
#[derive(Debug, PartialEq, Eq, Structural)]
pub enum TaskHint {
    Continue,
    Yield,
}

/// What a resumable unit of work reports: suspended with a value, or
/// complete with its result.
#[derive(Clone, Copy, Debug, PartialEq, Eq)]
pub enum TaskState<Y, R> {
    /// The task suspended with a value.
    Yielded(Y),
    /// The task completed with its result.
    Complete(R),
}

/// Per-slice accounting for a yielding task: reductions left in the slice,
/// refilled on every resume.
#[derive(Debug)]
pub struct YieldingTask {
    reductions_per_timeslice: usize,
    reds: usize,
}

impl YieldingTask {
    /// The slice size.
    pub closed spec fn spec_per_slice(&self) -> int {
        self.reductions_per_timeslice as int
    }

    /// The reductions left in the current slice.
    pub closed spec fn spec_reds(&self) -> int {
        self.reds as int
    }

    /// The remaining budget never passes the slice size.
    pub open spec fn wf(&self) -> bool {
        0 <= self.spec_reds() <= self.spec_per_slice()
    }

    fn new(reductions_per_timeslice: usize) -> (r: Self)
        ensures
            r.wf(),
            r.spec_per_slice() == reductions_per_timeslice,
            r.spec_reds() == 0,
    {
        YieldingTask { reductions_per_timeslice, reds: 0 }
    }

    fn bump_all_reds(&mut self) -> (r: TaskHint)
        requires
            old(self).wf(),
        ensures
            final(self).wf(),
            final(self).spec_per_slice() == old(self).spec_per_slice(),
            final(self).spec_reds() == 0,
            r == TaskHint::Yield,
    {
        self.reds = 0;
        TaskHint::Yield
    }

    fn bump_reds(&mut self, reductions: usize) -> (r: TaskHint)
        requires
            old(self).wf(),
        ensures
            final(self).wf(),
            final(self).spec_per_slice() == old(self).spec_per_slice(),
            old(self).spec_reds() <= reductions ==> final(self).spec_reds() == 0 && r
                == TaskHint::Yield,
            old(self).spec_reds() > reductions ==> final(self).spec_reds() == old(self).spec_reds()
                - reductions && r == TaskHint::Continue,
    {
        if self.reds <= reductions {
            self.reds = 0;
            TaskHint::Yield
        } else {
            self.reds = self.reds - reductions;
            TaskHint::Continue
        }
    }

    fn get_consumed_reds(&self) -> (r: usize)
        requires
            self.wf(),
        ensures
            r == self.spec_per_slice() - self.spec_reds(),
    {
        self.reductions_per_timeslice - self.reds
    }

    fn get_remaining_reds(&self) -> (r: usize)
        ensures
            r == self.spec_reds(),
    {
        self.reds
    }

    fn reset_after_yield(&mut self)
        requires
            old(self).wf(),
        ensures
            final(self).wf(),
            final(self).spec_per_slice() == old(self).spec_per_slice(),
            final(self).spec_reds() == final(self).spec_per_slice(),
    {
        self.reds = self.reductions_per_timeslice;
    }

    fn should_yield(&self) -> (r: bool)
        ensures
            r == (self.spec_reds() == 0),
    {
        self.reds == 0
    }
}

/// A task handle: blocking, with no budget, or yielding with per-slice
/// accounting.
#[derive(Debug)]
pub enum Task {
    Blocking,
    Yielding(YieldingTask),
}

impl Task {
    /// A well-formed handle.
    pub open spec fn wf(&self) -> bool {
        match self {
            Task::Blocking => true,
            Task::Yielding(t) => t.wf(),
        }
    }

    /// A handle with no budget enforcement.
    pub fn blocking() -> (r: Self)
        ensures
            r is Blocking,
            r.wf(),
    {
        Task::Blocking
    }

    /// A handle with the given slice size; a zero slice degenerates to
    /// blocking.
    pub fn yielding(reductions_per_timeslice: usize) -> (r: Self)
        ensures
            r.wf(),
            reductions_per_timeslice > 0 ==> r is Yielding && r->Yielding_0.spec_per_slice()
                == reductions_per_timeslice,
            reductions_per_timeslice == 0 ==> r is Blocking,
    {
        if reductions_per_timeslice > 0 {
            Task::Yielding(YieldingTask::new(reductions_per_timeslice))
        } else {
            Task::blocking()
        }
    }

    /// Forces a yield of a yielding handle.
    pub fn bump_all_reds(&mut self) -> (r: TaskHint)
        requires
            old(self).wf(),
        ensures
            final(self).wf(),
            *old(self) is Blocking ==> r == TaskHint::Continue && *final(self) == *old(self),
            *old(self) is Yielding ==> r == TaskHint::Yield && *final(self) is Yielding
                && final(self)->Yielding_0.spec_reds() == 0,
    {
        match self {
            Task::Blocking => TaskHint::Continue,
            Task::Yielding(t) => t.bump_all_reds(),
        }
    }

    /// Charges reductions; reports `Yield` when the slice is exhausted.
    pub fn bump_reds(&mut self, reductions: usize) -> (r: TaskHint)
        requires
            old(self).wf(),
        ensures
            final(self).wf(),
            *old(self) is Blocking ==> r == TaskHint::Continue && *final(self) == *old(self),
            *old(self) is Yielding ==> *final(self) is Yielding
                && (old(self)->Yielding_0.spec_reds() <= reductions ==> r == TaskHint::Yield
                && final(self)->Yielding_0.spec_reds() == 0)
                && (old(self)->Yielding_0.spec_reds() > reductions ==> r == TaskHint::Continue
                && final(self)->Yielding_0.spec_reds()
                == old(self)->Yielding_0.spec_reds() - reductions),
    {
        match self {
            Task::Blocking => TaskHint::Continue,
            Task::Yielding(t) => t.bump_reds(reductions),
        }
    }

    /// Reductions consumed in this slice; a blocking handle reports 0.
    pub fn get_consumed_reds(&self) -> (r: usize)
        requires
            self.wf(),
        ensures
            *self is Blocking ==> r == 0,
            *self is Yielding ==> r == self->Yielding_0.spec_per_slice()
                - self->Yielding_0.spec_reds(),
    {
        match self {
            Task::Blocking => 0,
            Task::Yielding(t) => t.get_consumed_reds(),
        }
    }

    /// Reductions remaining in this slice; a blocking handle reports the
    /// greatest representable count.
    pub fn get_remaining_reds(&self) -> (r: usize)
        ensures
            *self is Blocking ==> r == usize::MAX,
            *self is Yielding ==> r == self->Yielding_0.spec_reds(),
    {
        match self {
            Task::Blocking => usize::MAX,
            Task::Yielding(t) => t.get_remaining_reds(),
        }
    }

    /// Refills the slice on resume.
    pub fn reset_after_yield(&mut self)
        requires
            old(self).wf(),
        ensures
            final(self).wf(),
            *old(self) is Blocking ==> *final(self) == *old(self),
            *old(self) is Yielding ==> *final(self) is Yielding
                && final(self)->Yielding_0.spec_reds() == final(self)->Yielding_0.spec_per_slice(),
    {
        match self {
            Task::Blocking => (),
            Task::Yielding(t) => t.reset_after_yield(),
        }
    }

    /// Whether the slice is exhausted; a blocking handle never yields.
    pub fn should_yield(&self) -> (r: bool)
        ensures
            *self is Blocking ==> r == false,
            *self is Yielding ==> r == (self->Yielding_0.spec_reds() == 0),
    {
        match self {
            Task::Blocking => false,
            Task::Yielding(t) => t.should_yield(),
        }
    }
}

} // verus!
