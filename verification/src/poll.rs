use vstd::prelude::*;

verus! {

/// The answer of a suspendable computation to one resumption.
#[derive(Clone, Copy, Debug, PartialEq, Eq, Structural)]
pub enum Poll {
    /// The computation has saved its state and is waiting: it has to be
    /// resumed again, from the point it stopped at.
    Pending,
    /// The computation has produced its result. It must not be resumed again.
    Ready,
}

impl Poll {
    /// Whether this answer is `Ready`.
    pub fn is_ready(&self) -> (b: bool)
        ensures
            b == (*self == Poll::Ready),
    {
        match self {
            Poll::Ready => true,
            Poll::Pending => false,
        }
    }

    /// Whether this answer is `Pending`.
    pub fn is_pending(&self) -> (b: bool)
        ensures
            b == (*self == Poll::Pending),
    {
        match self {
            Poll::Ready => false,
            Poll::Pending => true,
        }
    }
}

} // verus!
