use std::collections::VecDeque;
use vstd::prelude::*;
use crate::context::{waker, Context};
use crate::poll::Poll;
use crate::schedule::{lemma_trace_len, lemma_trace_unfolds, total, trace, Slot, Turn};
use crate::suspend::Suspendable;
use crate::task::Task;

verus! {

/// The scheduler: a first-in, first-out queue of the tasks that still have to
/// be resumed.
///
/// No task in the queue has finished: a task leaves the queue, for good, with
/// the resumption that it answers `Ready`.
pub struct Runtime<C: Suspendable> {
    ready: VecDeque<Task<C>>,
    history: Ghost<Seq<Turn>>,
}

impl<C: Suspendable> View for Runtime<C> {
    type V = Seq<Slot>;

    /// What the schedule depends on in the ready queue, head first: of each
    /// task its number and the count of resumptions that it still needs,
    /// where its computation says so.
    open spec fn view(&self) -> Seq<Slot> {
        Seq::new(self.tasks().len(), |i: int| self.tasks()[i].slot())
    }
}

impl<C: Suspendable> Runtime<C> {
    /// The ready queue, head first: the tasks themselves, each with its
    /// number and its computation as it stands.
    pub closed spec fn tasks(&self) -> Seq<Task<C>> {
        self.ready@
    }

    /// The invariant of the queue: no task in it has finished. It holds of a
    /// new scheduler, and every method keeps it.
    pub open spec fn wf(&self) -> bool {
        forall|i: int| 0 <= i < self@.len() ==> (#[trigger] self@[i]).left != Some(0nat)
    }

    /// Every resumption that this scheduler has made, oldest first.
    pub closed spec fn history(&self) -> Seq<Turn> {
        self.history@
    }

    /// Whether every task in the queue says how many resumptions it still
    /// needs, so that serving the queue comes to an end.
    pub open spec fn finite(&self) -> bool {
        forall|i: int| 0 <= i < self@.len() ==> (#[trigger] self@[i]).left is Some
    }

    /// A scheduler with an empty queue that has resumed nothing yet.
    pub fn new() -> (rt: Runtime<C>)
        ensures
            rt.wf(),
            rt.tasks() == Seq::<Task<C>>::empty(),
            rt@ == Seq::<Slot>::empty(),
            rt.history() == Seq::<Turn>::empty(),
    {
        Runtime { ready: VecDeque::new(), history: Ghost(Seq::empty()) }
    }

    /// The number of tasks in the queue.
    pub fn len(&self) -> (n: usize)
        ensures
            n == self@.len(),
    {
        self.ready.len()
    }

    /// Whether the queue is empty.
    pub fn is_empty(&self) -> (b: bool)
        ensures
            b == (self@.len() == 0),
    {
        self.ready.len() == 0
    }

    /// Registers a computation: wraps it into a task whose number is the
    /// length of the queue at this moment, and puts the task at the tail.
    pub fn spawn(&mut self, computation: C)
        requires
            old(self).wf(),
            computation.resumptions_left() != Some(0nat),
        ensures
            final(self).wf(),
            final(self).tasks().len() == old(self).tasks().len() + 1,
            final(self).tasks().drop_last() == old(self).tasks(),
            final(self).tasks().last().spec_id() == old(self).tasks().len(),
            final(self).tasks().last().computation() == computation,
            final(self)@ == old(self)@.push(
                Slot { id: old(self)@.len() as usize, left: computation.resumptions_left() },
            ),
            final(self).history() == old(self).history(),
    {
        let task = Task::new(self.ready.len(), computation);
        self.ready.push_back(task);
        assert(self.tasks().drop_last() == old(self).tasks());
        assert(self@ == old(self)@.push(
            Slot { id: old(self)@.len() as usize, left: computation.resumptions_left() },
        ));
    }

    /// Decides what becomes of a task that has just been resumed: a task
    /// that answered `Pending` goes to the tail of the queue, and a task that
    /// answered `Ready` is dropped.
    pub fn requeue(&mut self, task: Task<C>, outcome: Poll)
        requires
            old(self).wf(),
            outcome == Poll::Pending ==> task.resumptions_left() != Some(0nat),
        ensures
            final(self).wf(),
            final(self).tasks() == if outcome == Poll::Pending {
                old(self).tasks().push(task)
            } else {
                old(self).tasks()
            },
            final(self)@ == if outcome == Poll::Pending {
                old(self)@.push(task.slot())
            } else {
                old(self)@
            },
            final(self).history() == old(self).history(),
    {
        if let Poll::Pending = outcome {
            self.ready.push_back(task);
            assert(self@ == old(self)@.push(task.slot()));
        }
    }

    /// Takes one turn of the run loop: removes the task at the head of the
    /// queue, resumes it once with a fresh context around an inert wake
    /// handle, and puts it back at the tail if it answered `Pending`. A task
    /// that answered `Ready` is dropped.
    ///
    /// Returns the resumption that was made, or `None`, with nothing changed,
    /// if the queue was empty.
    pub fn turn(&mut self) -> (made: Option<Turn>)
        requires
            old(self).wf(),
        ensures
            final(self).wf(),
            old(self).tasks().len() == 0 ==> {
                &&& made is None
                &&& final(self).tasks() == old(self).tasks()
                &&& final(self).history() == old(self).history()
            },
            old(self).tasks().len() > 0 ==> {
                &&& made matches Some(t)
                &&& t.id == old(self).tasks()[0].spec_id()
                &&& final(self).history() == old(self).history().push(t)
                &&& t.outcome == Poll::Ready ==> final(self).tasks() == old(self).tasks().drop_first()
                &&& t.outcome == Poll::Pending ==> {
                    &&& final(self).tasks().len() == old(self).tasks().len()
                    &&& final(self).tasks().drop_last() == old(self).tasks().drop_first()
                    &&& final(self).tasks().last().spec_id() == t.id
                    &&& final(self).tasks().last().resumptions_left() != Some(0nat)
                }
                &&& old(self).tasks()[0].resumptions_left() matches Some(n) ==> {
                    &&& t.outcome == Poll::Ready <==> n == 1
                    &&& t.outcome == Poll::Pending ==> final(self).tasks().last().resumptions_left()
                        == Some((n - 1) as nat)
                }
            },
    {
        assert(old(self)@.len() > 0 ==> old(self)@[0].left != Some(0nat));
        match self.ready.pop_front() {
            None => None,
            Some(mut task) => {
                let waker = waker();
                let mut context = Context::from_waker(&waker);
                let outcome = task.poll(&mut context);
                let made = Turn { id: task.id(), outcome };
                assert(self.tasks() == old(self).tasks().drop_first());
                assert(self@ == old(self)@.drop_first());
                self.requeue(task, outcome);
                proof {
                    self.history@ = self.history@.push(made);
                    if outcome == Poll::Pending {
                        assert(self.tasks().drop_last() == old(self).tasks().drop_first());
                    }
                }
                Some(made)
            },
        }
    }

    /// Serves the queue until it is empty: takes turn after turn, so that
    /// every task is resumed, in rotation, until it has answered `Ready`.
    /// That takes as many resumptions as the tasks need together, and they
    /// are made in the order of `trace`.
    ///
    /// The queue has to be `finite`. A task that never answers `Ready` would
    /// be resumed for ever, and the call would not return.
    pub fn run(&mut self)
        requires
            old(self).wf(),
            old(self).finite(),
        ensures
            final(self).wf(),
            final(self).tasks() == Seq::<Task<C>>::empty(),
            final(self)@ == Seq::<Slot>::empty(),
            final(self).history() == old(self).history() + trace(old(self)@),
            final(self).history().len() == old(self).history().len() + total(old(self)@),
    {
        proof {
            lemma_trace_len(self@);
        }
        while self.ready.len() > 0
            invariant
                self.wf(),
                self.finite(),
                self.history() + trace(self@) == old(self).history() + trace(old(self)@),
            decreases trace(self@).len(),
        {
            let ghost before = self@;
            let ghost queued = self.tasks();
            self.turn();
            proof {
                lemma_trace_unfolds(before);
                if before[0].turns() == 1 {
                    assert(self@ == before.drop_first());
                } else {
                    assert forall|i: int| 0 <= i < self.tasks().len() - 1 implies self.tasks()[i]
                        == queued[i + 1] by {
                        assert(self.tasks()[i] == self.tasks().drop_last()[i]);
                        assert(queued.drop_first()[i] == queued[i + 1]);
                    }
                    assert(self@ == before.drop_first().push(before[0].resumed()));
                }
            }
        }
    }
}

} // verus!
