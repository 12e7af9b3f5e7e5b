use vstd::prelude::*;

verus! {

/// The handle through which a computation could ask to be resumed soon.
///
/// This scheduler has no wake path: a pending task is simply revisited when its
/// turn comes round again. The handle is therefore inert. It holds no state,
/// and none of its methods does anything.
#[derive(Clone, Copy, Debug, PartialEq, Eq, Structural)]
pub struct Waker {}

impl Waker {
    /// Asks for the computation to be resumed, and gives the handle up.
    /// Nothing happens.
    pub fn wake(self) {
    }

    /// Asks for the computation to be resumed. Nothing happens.
    pub fn wake_by_ref(&self) {
    }
}

/// Makes the inert wake handle from which each resumption context is built.
pub fn waker() -> (w: Waker)
    ensures
        w == (Waker {}),
{
    Waker {}
}

/// What a computation is handed each time it is resumed: access to the wake
/// handle, and nothing else.
pub struct Context<'a> {
    waker: &'a Waker,
}

impl<'a> Context<'a> {
    /// The wake handle that this context gives access to.
    pub closed spec fn spec_waker(&self) -> Waker {
        *self.waker
    }

    /// Builds a resumption context around a wake handle.
    pub fn from_waker(waker: &'a Waker) -> (cx: Context<'a>)
        ensures
            cx.spec_waker() == *waker,
    {
        Context { waker }
    }

    /// The wake handle of this context.
    pub fn waker(&self) -> (w: &'a Waker)
        ensures
            *w == self.spec_waker(),
    {
        self.waker
    }
}

} // verus!
