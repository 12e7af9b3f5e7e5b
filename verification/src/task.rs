use vstd::prelude::*;
use crate::context::Context;
use crate::poll::Poll;
use crate::schedule::Slot;
use crate::suspend::Suspendable;

verus! {

/// One top-level computation that a scheduler drives, with the number it was
/// given when it was registered.
///
/// The number identifies the task for a reader of a trace. Nothing is
/// scheduled by it.
pub struct Task<C: Suspendable> {
    id: usize,
    computation: C,
}

impl<C: Suspendable> Task<C> {
    /// The number that the task was given.
    pub closed spec fn spec_id(&self) -> usize {
        self.id
    }

    /// The computation that the task wraps, as it stands now.
    pub closed spec fn computation(&self) -> C {
        self.computation
    }

    /// How many more resumptions the wrapped computation takes to finish,
    /// where it says so.
    pub open spec fn resumptions_left(&self) -> Option<nat> {
        self.computation().resumptions_left()
    }

    /// What a schedule depends on in the task: its number and the count of
    /// its computation.
    pub open spec fn slot(&self) -> Slot {
        Slot { id: self.spec_id(), left: self.resumptions_left() }
    }

    /// Wraps a computation into a task with the given number.
    pub fn new(id: usize, computation: C) -> (task: Task<C>)
        ensures
            task.spec_id() == id,
            task.computation() == computation,
    {
        Task { id, computation }
    }

    /// The number that the task was given.
    #[verifier::when_used_as_spec(spec_id)]
    pub fn id(&self) -> (id: usize)
        ensures
            id == self.spec_id(),
    {
        self.id
    }

    /// Resumes the wrapped computation once, with the context as it is, and
    /// hands its answer back.
    pub fn poll(&mut self, cx: &mut Context<'_>) -> (p: Poll)
        requires
            old(self).resumptions_left() != Some(0nat),
        ensures
            final(self).spec_id() == old(self).spec_id(),
            p == Poll::Pending ==> final(self).resumptions_left() != Some(0nat),
            old(self).resumptions_left() matches Some(n) ==> {
                &&& final(self).resumptions_left() == Some((n - 1) as nat)
                &&& (p == Poll::Ready <==> n == 1)
            },
            *final(cx) == *old(cx),
    {
        self.computation.resume(cx)
    }
}

} // verus!
