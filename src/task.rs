//! Tasks: a computation bound to its completion state.

use vstd::prelude::*;

verus! {

/// Result of one step of a computation.
#[derive(Debug, Clone, Copy, PartialEq, Eq, Structural)]
pub enum Progress {
    /// Not finished; the computation has arranged to be notified later.
    Pending,
    /// Finished; it must never be stepped again.
    Ready,
}

/// Handle of a spawned task: its index in the executor's task table.
/// Wake notifications carry these handles.
#[derive(Debug, Clone, Copy, PartialEq, Eq, Structural)]
pub struct Task {
    pub id: usize,
}

/// A suspendable computation, advanced one step at a time.
///
/// `Cx` is what the host lends a step to reach the outside world, such as
/// the means to build the notification target of `task`. Before returning
/// `Pending` a step must arrange that the target will be fired later; a
/// step that does not leaves its task stuck.
pub trait Computation<Cx>: Sized {
    /// What one step may do: taken on behalf of `task` from this state with
    /// `cx`, it leaves the computation as `after` and `cx` as `cx_after`,
    /// and returns `r`.
    ///
    /// An implementation verified against this states it; one that is not
    /// verified promises nothing more.
    open spec fn steps_to(self, task: Task, cx: Cx, after: Self, cx_after: Cx, r: Progress) -> bool {
        true
    }

    fn step(&mut self, task: Task, cx: &mut Cx) -> (r: Progress)
        ensures
            old(self).steps_to(task, *old(cx), *final(self), *final(cx), r),
    ;
}

/// A computation together with the result of its latest step.
pub struct TaskFuture<C> {
    pub future: C,
    pub poll: Progress,
}

impl<C> TaskFuture<C> {
    /// One attempt on behalf of `task`, from this state with `cx`, ending in
    /// `after` with `cx_after`: nothing at all once the computation has
    /// completed, else exactly one step whose result is recorded.
    pub open spec fn advances_to<Cx>(self, task: Task, cx: Cx, after: Self, cx_after: Cx) -> bool
        where
            C: Computation<Cx>,
    {
        if self.poll == Progress::Ready {
            after == self && cx_after == cx
        } else {
            self.future.steps_to(task, cx, after.future, cx_after, after.poll)
        }
    }

    /// A freshly spawned computation, not yet stepped.
    pub fn new(future: C) -> (r: TaskFuture<C>)
        ensures
            r.future == future,
            r.poll == Progress::Pending,
    {
        TaskFuture { future, poll: Progress::Pending }
    }

    pub fn is_complete(&self) -> (r: bool)
        ensures
            r == (self.poll == Progress::Ready),
    {
        match self.poll {
            Progress::Ready => true,
            Progress::Pending => false,
        }
    }

    /// Advances the computation by one step on behalf of `task`, unless it
    /// has already completed, and records what the step returned.
    ///
    /// Returns `None` when the computation had completed before: then
    /// nothing is stepped and nothing changes. Otherwise returns the step's
    /// result, which is now the recorded one.
    pub fn poll<Cx>(&mut self, task: Task, cx: &mut Cx) -> (r: Option<Progress>)
        where
            C: Computation<Cx>,
        ensures
            old(self).advances_to(task, *old(cx), *final(self), *final(cx)),
            old(self).poll == Progress::Ready ==> r is None && *final(self) == *old(self)
                && *final(cx) == *old(cx),
            old(self).poll == Progress::Pending ==> r == Some(final(self).poll),
    {
        match self.poll {
            Progress::Ready => None,
            Progress::Pending => {
                let p = self.future.step(task, cx);
                self.poll = p;
                Some(p)
            },
        }
    }
}

} // verus!
