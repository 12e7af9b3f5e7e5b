use vstd::prelude::*;
use crate::context::Context;
use crate::poll::Poll;

verus! {

/// A unit of work that runs in steps: each resumption advances it, and it
/// answers with `Pending` while it waits for something and with `Ready` once
/// it has finished.
///
/// The scheduler treats a computation as opaque. All it relies on is the
/// answer, and, for a computation that says how long it will take, the count
/// below.
pub trait Suspendable {
    /// How many more resumptions this computation takes to finish, where
    /// that is known: `Some(n)` with `n > 0` while it needs exactly `n` more,
    /// the last of which answers `Ready`; `Some(0)` once it has finished.
    /// `None` makes no promise: the computation may depend on something
    /// outside itself, such as a clock, and may never finish. That is what
    /// an implementor says who leaves this function as it is.
    open spec fn resumptions_left(&self) -> Option<nat> {
        None
    }

    /// Resumes the computation once.
    ///
    /// A finished computation must not be resumed. One that answers `Pending`
    /// has not finished. One that counts its resumptions uses one of them up,
    /// and answers `Ready` exactly when it was the last.
    fn resume(&mut self, cx: &mut Context<'_>) -> (p: Poll)
        requires
            old(self).resumptions_left() != Some(0nat),
        ensures
            p == Poll::Pending ==> final(self).resumptions_left() != Some(0nat),
            old(self).resumptions_left() matches Some(n) ==> {
                &&& final(self).resumptions_left() == Some((n - 1) as nat)
                &&& (p == Poll::Ready <==> n == 1)
            },
            *final(cx) == *old(cx),
    ;
}

/// A boxed computation is resumed as the computation in the box is, so that
/// computations of different types can stand in one queue as
/// `Box<dyn Suspendable>`.
impl<T: Suspendable + ?Sized> Suspendable for Box<T> {
    open spec fn resumptions_left(&self) -> Option<nat> {
        (**self).resumptions_left()
    }

    fn resume(&mut self, cx: &mut Context<'_>) -> (p: Poll) {
        (**self).resume(cx)
    }
}

} // verus!
