//! A cooperative executor: a first-in first-out queue of suspended tasks,
//! each polled in turn and put back at the tail until it reports ready.
use vstd::prelude::*;

use std::collections::VecDeque;

verus! {

/// What a poll of a task reports.
#[derive(Debug, Clone, Copy, PartialEq, Eq, Structural)]
pub enum Poll {
    Ready,
    Pending,
}

/// Polls a task once; the task stays with the executor while it is pending.
pub trait Poller<T> {
    fn poll(&mut self, task: &mut T) -> Poll;
}

/// The ready queue of tasks.
pub struct Executor<T> {
    tasks: VecDeque<T>,
}

impl<T> View for Executor<T> {
    type V = Seq<T>;

    closed spec fn view(&self) -> Seq<T> {
        self.tasks@
    }
}

impl<T> Executor<T> {
    /// An executor with no task.
    pub fn new() -> (r: Self)
        ensures
            r@ == Seq::<T>::empty(),
    {
        Executor { tasks: VecDeque::new() }
    }

    /// Adds a task at the tail of the queue.
    pub fn spawn(&mut self, task: T)
        ensures
            final(self)@ == old(self)@.push(task),
    {
        self.tasks.push_back(task);
    }

    /// Number of tasks in the queue.
    pub fn len(&self) -> (n: usize)
        ensures
            n == self@.len(),
    {
        self.tasks.len()
    }

    /// Whether every task has finished.
    pub fn is_empty(&self) -> (r: bool)
        ensures
            r == (self@.len() == 0),
    {
        self.tasks.len() == 0
    }

    /// Takes the task at the head of the queue to be polled.
    pub fn next_task(&mut self) -> (r: Option<T>)
        ensures
            old(self)@.len() == 0 ==> r is None && final(self)@ == old(self)@,
            old(self)@.len() > 0 ==> r == Some(old(self)@[0]) && final(self)@ == old(self)@.drop_first(),
    {
        self.tasks.pop_front()
    }

    /// Settles a polled task: a pending one goes back to the tail, a ready one
    /// is dropped.
    pub fn settle(&mut self, task: T, state: Poll)
        ensures
            state == Poll::Pending ==> final(self)@ == old(self)@.push(task),
            state == Poll::Ready ==> final(self)@ == old(self)@,
            state == Poll::Pending ==> final(self)@.len() > 0,
    {
        match state {
            Poll::Ready => {},
            Poll::Pending => self.tasks.push_back(task),
        }
    }

    /// Polls tasks in turn, at most `max_polls` of them, putting pending ones
    /// back at the tail. Returns whether the queue emptied: it does only when
    /// every task has reported ready.
    ///
    /// Whatever the poller reports, some trace of outcomes, one per poll,
    /// each with the task as the poll left it, explains the run: every poll
    /// takes the head of the queue, `Pending` puts the polled task at the
    /// tail, `Ready` drops it; there are `max_polls` polls unless the queue
    /// empties first.
    pub fn run<P: Poller<T>>(&mut self, poller: &mut P, max_polls: usize) -> (done: bool)
        ensures
            done == (final(self)@.len() == 0),
            final(self)@.len() <= old(self)@.len(),
            old(self)@.len() == 0 ==> final(self)@.len() == 0,
            exists|trace: Seq<(Poll, T)>| {
                &&& trace.len() <= max_polls
                &&& final(self)@ == after_polls(old(self)@, trace)
                &&& forall|k: int| 0 <= k < trace.len() ==> #[trigger] after_polls(old(self)@, trace.take(k)).len() > 0
                &&& trace.len() < max_polls ==> final(self)@.len() == 0
            },
    {
        let mut polls: usize = 0;
        let ghost trace: Seq<(Poll, T)> = Seq::empty();
        assert(after_polls(old(self)@, trace) == old(self)@);
        while polls < max_polls
            invariant
                self@.len() <= old(self)@.len(),
                old(self)@.len() == 0 ==> self@.len() == 0,
                trace.len() == polls,
                polls <= max_polls,
                self@ == after_polls(old(self)@, trace),
                forall|k: int| 0 <= k < trace.len() ==> #[trigger] after_polls(old(self)@, trace.take(k)).len() > 0,
            decreases max_polls - polls,
        {
            let ghost before = self@;
            match self.next_task() {
                None => {
                    return true;
                },
                Some(mut task) => {
                    let state = poller.poll(&mut task);
                    let ghost polled = task;
                    self.settle(task, state);
                    proof {
                        let t2 = trace.push((state, polled));
                        assert(t2.drop_last() =~= trace);
                        assert forall|k: int| 0 <= k < t2.len() implies #[trigger] after_polls(old(self)@, t2.take(k)).len()
                            > 0 by {
                            if k < trace.len() {
                                assert(t2.take(k) =~= trace.take(k));
                            } else {
                                assert(t2.take(k) =~= trace);
                            }
                        }
                        trace = t2;
                    }
                },
            }
            polls = polls + 1;
        }
        self.is_empty()
    }
}

/// The queue after polls with the given outcomes, each paired with the task
/// as its poll left it: a poll takes the head; `Pending` puts the polled task
/// at the tail and `Ready` drops it. Polls on an empty queue change nothing.
pub open spec fn after_polls<T>(q: Seq<T>, trace: Seq<(Poll, T)>) -> Seq<T>
    decreases trace.len(),
{
    if trace.len() == 0 {
        q
    } else {
        let p = after_polls(q, trace.drop_last());
        if p.len() == 0 {
            p
        } else if trace.last().0 == Poll::Pending {
            p.drop_first().push(trace.last().1)
        } else {
            p.drop_first()
        }
    }
}

/// Waits until a deadline on the system clock, reporting pending on every
/// poll before it. The clock is read by the caller and handed in.
#[derive(Debug, Clone, Copy, PartialEq, Eq, Structural)]
pub struct Delay {
    /// Clock reading, in nanoseconds, from which the delay has expired.
    pub expiration_timestamp: u64,
}

impl Delay {
    /// A delay of `duration_nanos` from the clock reading `now`.
    pub fn new(now: u64, duration_nanos: u64) -> (r: Self)
        requires
            now + duration_nanos <= u64::MAX,
        ensures
            r.expiration_timestamp == now + duration_nanos,
    {
        Delay { expiration_timestamp: now + duration_nanos }
    }

    /// Ready once the clock reading `now` has reached the deadline.
    pub fn poll(&self, now: u64) -> (r: Poll)
        ensures
            r == (if now < self.expiration_timestamp {
                Poll::Pending
            } else {
                Poll::Ready
            }),
    {
        if now < self.expiration_timestamp {
            Poll::Pending
        } else {
            Poll::Ready
        }
    }
}

} // verus!
