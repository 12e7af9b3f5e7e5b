use vstd::prelude::*;
use crate::poll::Poll;

verus! {

/// A timer: it is ready once the clock has reached the tick that was fixed
/// when the timer was made.
///
/// A delay does not read a clock itself. Whoever makes or polls one hands it
/// the current reading. It never sleeps: each poll compares and answers.
#[derive(Clone, Copy, Debug)]
pub struct Delay {
    target_time: u128,
}

/// What a delay with the given target answers when the clock shows `now`.
pub open spec fn answer(target: nat, now: nat) -> Poll {
    if now >= target {
        Poll::Ready
    } else {
        Poll::Pending
    }
}

/// How many steps of the given size it takes to cover `offset` ticks: the
/// least `j` with `j * step >= offset`.
pub open spec fn steps_to_cover(offset: nat, step: nat) -> nat
    recommends
        step > 0,
{
    if offset % step == 0 {
        offset / step
    } else {
        offset / step + 1
    }
}

impl View for Delay {
    type V = nat;

    /// The tick at which the delay is over.
    closed spec fn view(&self) -> nat {
        self.target_time as nat
    }
}

impl Delay {
    /// A delay that is over `ms` ticks after the reading `now`.
    pub fn new(now: usize, ms: usize) -> (delay: Delay)
        ensures
            delay@ == now + ms,
    {
        Delay { target_time: now as u128 + ms as u128 }
    }

    /// The tick at which the delay is over, or `None` where that tick is
    /// beyond what a clock can show.
    pub fn target(&self) -> (tick: Option<usize>)
        ensures
            tick == if self@ <= usize::MAX {
                Some(self@ as usize)
            } else {
                None
            },
    {
        if self.target_time <= usize::MAX as u128 {
            Some(self.target_time as usize)
        } else {
            None
        }
    }

    /// Answers `Ready` if the reading `now` has reached the target, and
    /// `Pending` if it has not.
    pub fn poll(&self, now: usize) -> (p: Poll)
        ensures
            p == answer(self@, now as nat),
    {
        if now as u128 >= self.target_time {
            Poll::Ready
        } else {
            Poll::Pending
        }
    }
}

/// A delay under a clock that advances by a fixed step from one observation
/// to the next. Let the delay be made for `offset` ticks at tick `t`, and let
/// observation `j` see the tick `t + j * step`. Then the delay answers
/// `Pending` to every observation before number `steps_to_cover(offset, step)`
/// and `Ready` to that one and to every later one: it is ready at the first
/// observation at which the clock has reached `t + offset`.
pub proof fn lemma_ready_at_first_tick_reached(t: nat, offset: nat, step: nat, j: nat)
    requires
        step > 0,
    ensures
        answer(t + offset, t + j * step) == if j >= steps_to_cover(offset, step) {
            Poll::Ready
        } else {
            Poll::Pending
        },
{
    let q = offset / step;
    let m = offset % step;
    assert(offset == q * step + m && m < step) by (nonlinear_arith)
        requires
            step > 0,
            q == offset / step,
            m == offset % step,
    ;
    if j < q {
        assert(j * step + step <= q * step) by (nonlinear_arith)
            requires
                j + 1 <= q,
        ;
    } else if j == q {
        assert(j * step == q * step);
    } else {
        assert(j * step >= q * step + step) by (nonlinear_arith)
            requires
                j >= q + 1,
        ;
    }
}

} // verus!
