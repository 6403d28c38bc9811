//! The executor: a table of spawned tasks and the queue of wake
//! notifications, served one at a time in the order they were sent.

use std::collections::VecDeque;
use vstd::prelude::*;

use crate::task::{Computation, Progress, Task, TaskFuture};

verus! {

/// Whether every task in the table has completed.
pub open spec fn all_complete<C>(tasks: Seq<TaskFuture<C>>) -> bool {
    forall|i: int| 0 <= i < tasks.len() ==> #[trigger] tasks[i].poll == Progress::Ready
}

/// What serving a batch of notifications may do to the task table: the
/// table keeps its size, a completed task is left exactly as it was, and a
/// task with no notification in `queue` is not touched.
pub open spec fn served<C>(
    before: Seq<TaskFuture<C>>,
    queue: Seq<Task>,
    after: Seq<TaskFuture<C>>,
) -> bool {
    &&& after.len() == before.len()
    &&& forall|i: int|
        0 <= i < before.len() && (before[i].poll == Progress::Ready || !queue.contains(
            Task { id: i as usize },
        )) ==> #[trigger] after[i] == before[i]
}

/// One notification of `t` served against the table `tasks` with `cx`,
/// ending in `tasks2` with `cx2`: a handle that names no task does
/// nothing; otherwise the task it names is advanced and no other changes.
pub open spec fn advance<C, Cx>(
    tasks: Seq<TaskFuture<C>>,
    cx: Cx,
    t: Task,
    tasks2: Seq<TaskFuture<C>>,
    cx2: Cx,
) -> bool
    where
        C: Computation<Cx>,
{
    if t.id < tasks.len() {
        &&& tasks2 == tasks.update(t.id as int, tasks2[t.id as int])
        &&& tasks[t.id as int].advances_to(t, cx, tasks2[t.id as int], cx2)
    } else {
        tasks2 == tasks && cx2 == cx
    }
}

/// The notifications of `queue` served one after the other, oldest first,
/// starting from `tasks` with `cx` and ending in `tasks2` with `cx2`.
pub open spec fn serves<C, Cx>(
    tasks: Seq<TaskFuture<C>>,
    cx: Cx,
    queue: Seq<Task>,
    tasks2: Seq<TaskFuture<C>>,
    cx2: Cx,
) -> bool
    where
        C: Computation<Cx>,
    decreases queue.len(),
{
    if queue.len() == 0 {
        tasks2 == tasks && cx2 == cx
    } else {
        exists|mid: Seq<TaskFuture<C>>, cx_mid: Cx|
            #[trigger] advance(tasks, cx, queue[0], mid, cx_mid) && serves(
                mid,
                cx_mid,
                queue.drop_first(),
                tasks2,
                cx2,
            )
    }
}

/// Serving `queue` and then one more notification of `t` is serving
/// `queue` followed by `t`.
proof fn lemma_serves_push<C, Cx>(
    tasks: Seq<TaskFuture<C>>,
    cx: Cx,
    queue: Seq<Task>,
    mid: Seq<TaskFuture<C>>,
    cx_mid: Cx,
    t: Task,
    last: Seq<TaskFuture<C>>,
    cx_last: Cx,
)
    where
        C: Computation<Cx>,
    requires
        serves(tasks, cx, queue, mid, cx_mid),
        advance(mid, cx_mid, t, last, cx_last),
    ensures
        serves(tasks, cx, queue.push(t), last, cx_last),
    decreases queue.len(),
{
    let q = queue.push(t);
    if queue.len() == 0 {
        assert(q[0] == t);
        assert(q.drop_first() =~= Seq::<Task>::empty());
        assert(serves(last, cx_last, q.drop_first(), last, cx_last));
        assert(advance(tasks, cx, q[0], last, cx_last));
    } else {
        let (m, c) = choose|m: Seq<TaskFuture<C>>, c: Cx|
            #[trigger] advance(tasks, cx, queue[0], m, c) && serves(m, c, queue.drop_first(), mid, cx_mid);
        lemma_serves_push(m, c, queue.drop_first(), mid, cx_mid, t, last, cx_last);
        assert(q.drop_first() =~= queue.drop_first().push(t));
        assert(q[0] == queue[0]);
        assert(advance(tasks, cx, q[0], m, c));
    }
}

/// `a` is served before `b` from `queue`: some notification of `a` comes
/// earlier than every notification of `b`.
pub open spec fn served_before(queue: Seq<Task>, a: Task, b: Task) -> bool {
    exists|i: int|
        0 <= i < queue.len() && queue[i] == a && forall|j: int| 0 <= j < i ==> queue[j] != b
}

/// Serving a notification of `t`, one of `queue`, after serving some of
/// `queue` is still serving `queue`.
proof fn lemma_served_chain<C>(
    first: Seq<TaskFuture<C>>,
    queue: Seq<Task>,
    middle: Seq<TaskFuture<C>>,
    t: Task,
    last: Seq<TaskFuture<C>>,
)
    requires
        served(first, queue, middle),
        queue.contains(t),
        served(middle, seq![t], last),
    ensures
        served(first, queue, last),
{
    assert forall|i: int|
        0 <= i < first.len() && (first[i].poll == Progress::Ready || !queue.contains(
            Task { id: i as usize },
        )) implies #[trigger] last[i] == first[i] by {
        assert(middle[i] == first[i]);
        if !(middle[i].poll == Progress::Ready) {
            if seq![t].contains(Task { id: i as usize }) {
                let k = choose|k: int| 0 <= k < 1 && seq![t][k] == Task { id: i as usize };
                assert(seq![t][k] == t);
            }
        }
    }
}

/// The executor. It owns every spawned computation and the queue of
/// notifications saying which task is worth advancing next.
pub struct MiniTokio<C> {
    tasks: Vec<TaskFuture<C>>,
    scheduled: VecDeque<Task>,
}

impl<C> MiniTokio<C> {
    /// The spawned computations, indexed by task id.
    pub closed spec fn tasks(&self) -> Seq<TaskFuture<C>> {
        self.tasks@
    }

    /// The notifications not yet served, oldest first.
    pub closed spec fn scheduled(&self) -> Seq<Task> {
        self.scheduled@
    }

    /// Every queued notification names a spawned task.
    pub open spec fn wf(&self) -> bool {
        forall|k: int|
            0 <= k < self.scheduled().len() ==> (#[trigger] self.scheduled()[k]).id
                < self.tasks().len()
    }

    pub fn new() -> (r: MiniTokio<C>)
        ensures
            r.wf(),
            r.tasks().len() == 0,
            r.scheduled().len() == 0,
    {
        MiniTokio { tasks: Vec::new(), scheduled: VecDeque::new() }
    }

    /// Takes ownership of `future` as a new task and queues it for its first
    /// attempt. Returns the new task's handle.
    pub fn spawn(&mut self, future: C) -> (t: Task)
        requires
            old(self).wf(),
        ensures
            final(self).wf(),
            t.id == old(self).tasks().len(),
            final(self).tasks() == old(self).tasks().push(TaskFuture { future, poll: Progress::Pending }),
            final(self).scheduled() == old(self).scheduled().push(t),
            !old(self).scheduled().contains(t),
    {
        let t = Task { id: self.tasks.len() };
        self.tasks.push(TaskFuture::new(future));
        self.scheduled.push_back(t);
        assert(!old(self).scheduled().contains(t)) by {
            if old(self).scheduled().contains(t) {
                let k = choose|k: int| 0 <= k < old(self).scheduled().len() && old(self).scheduled()[k] == t;
                assert(old(self).scheduled()[k].id < old(self).tasks().len());
            }
        }
        t
    }

    /// Number of spawned tasks.
    pub fn task_count(&self) -> (r: usize)
        ensures
            r == self.tasks().len(),
    {
        self.tasks.len()
    }

    /// Number of notifications waiting to be served.
    pub fn queued(&self) -> (r: usize)
        ensures
            r == self.scheduled().len(),
    {
        self.scheduled.len()
    }

    /// Whether `task` names a spawned task that has completed.
    pub fn is_complete(&self, task: Task) -> (r: bool)
        ensures
            r == (task.id < self.tasks().len() && self.tasks()[task.id as int].poll
                == Progress::Ready),
    {
        task.id < self.tasks.len() && self.tasks[task.id].is_complete()
    }

    /// Whether every spawned task has completed: then no notification can
    /// make any more progress and the host may stop.
    pub fn is_finished(&self) -> (r: bool)
        ensures
            r == all_complete(self.tasks()),
    {
        let mut i: usize = 0;
        while i < self.tasks.len()
            invariant
                i <= self.tasks().len(),
                forall|j: int| 0 <= j < i ==> #[trigger] self.tasks()[j].poll == Progress::Ready,
            decreases self.tasks().len() - i,
        {
            if !self.tasks[i].is_complete() {
                return false;
            }
            i = i + 1;
        }
        true
    }

    /// Serves the oldest notification, if any: removes it from the queue and
    /// advances the task it names. Returns that task.
    pub fn run_next<Cx>(&mut self, cx: &mut Cx) -> (r: Option<Task>)
        where
            C: Computation<Cx>,
        requires
            old(self).wf(),
        ensures
            final(self).wf(),
            match r {
                None => {
                    &&& old(self).scheduled().len() == 0
                    &&& final(self).scheduled() == old(self).scheduled()
                    &&& final(self).tasks() == old(self).tasks()
                    &&& *final(cx) == *old(cx)
                },
                Some(t) => {
                    &&& old(self).scheduled().len() > 0
                    &&& t == old(self).scheduled()[0]
                    &&& final(self).scheduled() == old(self).scheduled().drop_first()
                    &&& served(old(self).tasks(), seq![t], final(self).tasks())
                    &&& advance(old(self).tasks(), *old(cx), t, final(self).tasks(), *final(cx))
                },
            },
    {
        match self.scheduled.pop_front() {
            None => None,
            Some(t) => {
                assert(t.id < self.tasks().len()) by {
                    assert(old(self).scheduled()[0] == t);
                }
                assert(self.wf()) by {
                    assert forall|k: int| 0 <= k < self.scheduled().len() implies (#[trigger] self.scheduled()[k]).id
                        < self.tasks().len() by {
                        assert(self.scheduled()[k] == old(self).scheduled()[k + 1]);
                    }
                }
                t.poll(self, cx);
                Some(t)
            },
        }
    }

    /// Serves every queued notification, oldest first, until the queue is
    /// empty. Notifications sent from elsewhere while this runs are queued
    /// by the host afterwards, with `Task::schedule`.
    pub fn run<Cx>(&mut self, cx: &mut Cx)
        where
            C: Computation<Cx>,
        requires
            old(self).wf(),
        ensures
            final(self).wf(),
            final(self).scheduled().len() == 0,
            serves(old(self).tasks(), *old(cx), old(self).scheduled(), final(self).tasks(), *final(cx)),
            served(old(self).tasks(), old(self).scheduled(), final(self).tasks()),
    {
        let ghost done: Seq<Task> = Seq::empty();
        loop
            invariant
                self.wf(),
                served(old(self).tasks(), old(self).scheduled(), self.tasks()),
                forall|t: Task| #[trigger] self.scheduled().contains(t) ==> old(self).scheduled().contains(t),
                old(self).scheduled() == done + self.scheduled(),
                serves(old(self).tasks(), *old(cx), done, self.tasks(), *cx),
            ensures
                self.scheduled().len() == 0,
            decreases self.scheduled().len(),
        {
            let ghost before = self.tasks();
            let ghost cx_before = *cx;
            let ghost q = self.scheduled();
            match self.run_next(cx) {
                None => break,
                Some(t) => {
                    assert forall|u: Task| #[trigger] self.scheduled().contains(u) implies old(self).scheduled().contains(u) by {
                        let k = choose|k: int| 0 <= k < self.scheduled().len() && self.scheduled()[k] == u;
                        assert(q[k + 1] == u);
                        assert(q.contains(u));
                    }
                    assert(q.contains(t)) by { assert(q[0] == t); }
                    proof {
                        lemma_served_chain(old(self).tasks(), old(self).scheduled(), before, t, self.tasks());
                        lemma_serves_push(old(self).tasks(), *old(cx), done, before, cx_before, t, self.tasks(), *cx);
                        assert(done.push(t) + self.scheduled() =~= done + q);
                        done = done.push(t);
                    }
                },
            }
        }
    }
}

impl Task {
    /// Sends a wake notification: queues the handle to be advanced.
    /// A handle that names no spawned task is ignored.
    pub fn schedule<C>(&self, executor: &mut MiniTokio<C>)
        requires
            old(executor).wf(),
        ensures
            final(executor).wf(),
            final(executor).tasks() == old(executor).tasks(),
            final(executor).scheduled() == if self.id < old(executor).tasks().len() {
                old(executor).scheduled().push(*self)
            } else {
                old(executor).scheduled()
            },
    {
        if self.id < executor.tasks.len() {
            executor.scheduled.push_back(*self);
            assert forall|k: int| 0 <= k < executor.scheduled().len() implies (#[trigger] executor.scheduled()[k]).id
                < executor.tasks().len() by {
                if k < old(executor).scheduled().len() {
                    assert(executor.scheduled()[k] == old(executor).scheduled()[k]);
                }
            }
        }
    }

    /// Advances the task the handle names once, unless it has completed. Returns
    /// what `TaskFuture::poll` returned, or `None` for a handle that names
    /// no spawned task.
    pub fn poll<C, Cx>(self, executor: &mut MiniTokio<C>, cx: &mut Cx) -> (r: Option<Progress>)
        where
            C: Computation<Cx>,
        ensures
            final(executor).scheduled() == old(executor).scheduled(),
            served(old(executor).tasks(), seq![self], final(executor).tasks()),
            advance(old(executor).tasks(), *old(cx), self, final(executor).tasks(), *final(cx)),
            self.id >= old(executor).tasks().len() ==> r is None && *final(executor) == *old(executor),
            self.id < old(executor).tasks().len() ==> {
                let before = old(executor).tasks()[self.id as int];
                let after = final(executor).tasks()[self.id as int];
                &&& before.poll == Progress::Ready ==> r is None && after == before && *final(cx)
                    == *old(cx)
                &&& before.poll == Progress::Pending ==> r == Some(after.poll)
            },
    {
        if self.id < executor.tasks.len() {
            let r = executor.tasks[self.id].poll(self, cx);
            assert forall|i: int| 0 <= i < old(executor).tasks().len() && (old(executor).tasks()[i].poll == Progress::Ready
                || !seq![self].contains(Task { id: i as usize })) implies #[trigger] executor.tasks()[i] == old(executor).tasks()[i] by {
                if i != self.id {
                    assert(executor.tasks()[i] == old(executor).tasks()[i]);
                } else {
                    assert(seq![self][0] == self);
                    assert(Task { id: i as usize } == self);
                }
            }
            r
        } else {
            None
        }
    }
}

/// Notifications are served in the order they were sent: after `first`
/// and then `second` are queued behind any notifications not naming
/// `second` (as `spawn` does with fresh tasks), `first` is served before
/// `second`.
pub proof fn lemma_fifo(queue: Seq<Task>, first: Task, second: Task)
    requires
        first != second,
        !queue.contains(second),
    ensures
        served_before(queue.push(first).push(second), first, second),
        !served_before(queue.push(first).push(second), second, first),
{
    let q = queue.push(first).push(second);
    let i = queue.len() as int;
    assert(q[i] == first);
    assert forall|j: int| 0 <= j < i implies q[j] != second by {
        assert(q[j] == queue[j]);
    }
    if served_before(q, second, first) {
        let k = choose|k: int|
            0 <= k < q.len() && q[k] == second && forall|j: int| 0 <= j < k ==> q[j] != first;
        if k < i {
            assert(q[k] == queue[k]);
        }
        assert(q[i] == first);
    }
}

/// Once every task has completed, serving notifications changes nothing:
/// whatever is still queued, the table is left as it was and stays
/// complete, so the host can stop.
pub proof fn lemma_shutdown<C>(
    before: Seq<TaskFuture<C>>,
    queue: Seq<Task>,
    after: Seq<TaskFuture<C>>,
)
    requires
        all_complete(before),
        served(before, queue, after),
    ensures
        after == before,
        all_complete(after),
{
    assert(after =~= before) by {
        assert forall|i: int| 0 <= i < before.len() implies after[i] == before[i] by {
            assert(before[i].poll == Progress::Ready);
        }
    }
}

} // verus!
