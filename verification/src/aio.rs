//! A FIFO queue of background tasks.
//!
//! This is the decision core of the background worker: what is pending and
//! in which order it must run. The runtime around it owns the channel and
//! the worker thread; it feeds submissions into `enqueue` and performs, one
//! at a time, exactly the task `next_task` hands out, so the verified order
//! here is the order the worker executes.

use vstd::prelude::*;

verus! {

/// One unit of background work: print a line, or shut the worker down.
pub enum Task {
    Println(String),
    Exit,
}

/// The pending background tasks, oldest first.
pub struct Executor {
    pub tasks: Vec<Task>,
}

/// The tasks performed by a worker that takes `n` steps from a queue
/// holding `q`: one task per step, oldest first, stopping early only when
/// the queue runs dry.
pub open spec fn run_order(q: Seq<Task>, n: nat) -> Seq<Task>
    decreases n,
{
    if n == 0 || q.len() == 0 {
        Seq::empty()
    } else {
        seq![q[0]] + run_order(q.drop_first(), (n - 1) as nat)
    }
}

/// Strict FIFO: draining the whole queue performs exactly the submitted
/// tasks, in submission order.
pub proof fn lemma_fifo(q: Seq<Task>)
    ensures
        run_order(q, q.len()) == q,
    decreases q.len(),
{
    if q.len() > 0 {
        lemma_fifo(q.drop_first());
        assert(seq![q[0]] + q.drop_first() =~= q);
    }
}

impl Executor {
    pub fn new() -> (r: Self)
        ensures
            r.tasks@ == Seq::<Task>::empty(),
    {
        let r = Executor { tasks: Vec::new() };
        proof {
            assert(r.tasks@ =~= Seq::<Task>::empty());
        }
        r
    }

    /// Submits a task; never blocks, never reorders what is already queued.
    pub fn enqueue(&mut self, t: Task)
        ensures
            final (self).tasks@ == old(self).tasks@.push(t),
    {
        self.tasks.push(t);
    }

    /// Submits a request to print one line.
    pub fn println(&mut self, string: String)
        ensures
            final (self).tasks@ == old(self).tasks@.push(Task::Println(string)),
    {
        self.enqueue(Task::Println(string));
    }

    /// The task the worker must perform next: always the oldest one.
    pub fn next_task(&mut self) -> (r: Option<Task>)
        ensures
            old(self).tasks@.len() == 0 ==> r is None && final (self).tasks@ == old(self).tasks@,
            old(self).tasks@.len() > 0 ==> r == Some(old(self).tasks@[0]) && final (self).tasks@
                == old(self).tasks@.drop_first(),
    {
        if self.tasks.len() == 0 {
            None
        } else {
            let t = self.tasks.remove(0);
            proof {
                assert(self.tasks@ =~= old(self).tasks@.drop_first());
            }
            Some(t)
        }
    }
}

} // verus!
