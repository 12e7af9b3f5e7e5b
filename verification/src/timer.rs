use vstd::prelude::*;
use crate::context::Context;
use crate::delay::{answer, steps_to_cover, Delay};
use crate::poll::Poll;
use crate::suspend::Suspendable;

verus! {

/// A simulated clock. It shows a tick, and each time it is read it advances
/// by a fixed step. It stops at the last tick that a reading can hold.
#[derive(Clone, Copy, Debug)]
pub struct StepClock {
    now: usize,
    step: usize,
}

/// The tick that a clock shows after it was read at `now`.
pub open spec fn tick_after(now: nat, step: nat) -> nat {
    if now + step > usize::MAX {
        usize::MAX as nat
    } else {
        now + step
    }
}

/// How many readings of a clock that shows `now` and advances by `step` come
/// before the first one that shows `target` or more, or `None` if no reading
/// ever does: because the clock stands still, or because the target lies
/// beyond its last tick.
pub open spec fn readings_before(now: nat, step: nat, target: nat) -> Option<nat> {
    if now >= target {
        Some(0)
    } else if step == 0 || target > usize::MAX {
        None
    } else {
        Some(steps_to_cover((target - now) as nat, step))
    }
}

impl StepClock {
    /// The tick that the clock shows.
    pub closed spec fn spec_now(&self) -> nat {
        self.now as nat
    }

    /// The ticks by which a reading advances the clock.
    pub closed spec fn spec_step(&self) -> nat {
        self.step as nat
    }

    /// A clock that shows `start` and advances by `step` with each reading.
    pub fn new(start: usize, step: usize) -> (clock: StepClock)
        ensures
            clock.spec_now() == start,
            clock.spec_step() == step,
    {
        StepClock { now: start, step }
    }

    /// The tick that the clock shows. The clock does not advance.
    pub fn now(&self) -> (tick: usize)
        ensures
            tick == self.spec_now(),
    {
        self.now
    }

    /// The ticks by which a reading advances the clock.
    pub fn step(&self) -> (step: usize)
        ensures
            step == self.spec_step(),
    {
        self.step
    }

    /// Reads the clock: returns the tick that it shows, and advances it.
    pub fn read(&mut self) -> (tick: usize)
        ensures
            tick == old(self).spec_now(),
            final(self).spec_now() == tick_after(old(self).spec_now(), old(self).spec_step()),
            final(self).spec_step() == old(self).spec_step(),
    {
        let tick = self.now;
        self.now = tick.saturating_add(self.step);
        tick
    }
}

/// A delay together with the simulated clock that it is polled against: a
/// computation that is resumed until its clock has reached the target.
///
/// Each resumption reads the clock once, so the number of resumptions that a
/// timer takes is known from the start.
pub struct Timer {
    delay: Delay,
    clock: StepClock,
    done: bool,
}

impl Timer {
    /// The delay that the timer waits on.
    pub closed spec fn delay(&self) -> Delay {
        self.delay
    }

    /// The clock of the timer.
    pub closed spec fn clock(&self) -> StepClock {
        self.clock
    }

    /// Whether the timer has answered `Ready`.
    pub closed spec fn done(&self) -> bool {
        self.done
    }

    /// A timer that is over `ms` ticks after the tick that `clock` shows.
    /// Making the timer reads the clock.
    pub fn new(clock: StepClock, ms: usize) -> (timer: Timer)
        ensures
            timer.delay()@ == clock.spec_now() + ms,
            timer.clock().spec_now() == tick_after(clock.spec_now(), clock.spec_step()),
            timer.clock().spec_step() == clock.spec_step(),
            !timer.done(),
    {
        let mut clock = clock;
        let now = clock.read();
        Timer { delay: Delay::new(now, ms), clock, done: false }
    }

    /// Whether the timer has answered `Ready`.
    pub fn is_done(&self) -> (b: bool)
        ensures
            b == self.done(),
    {
        self.done
    }
}

proof fn lemma_one_reading_fewer(now: nat, step: nat, target: nat)
    requires
        now < target <= usize::MAX,
        step > 0,
    ensures
        readings_before(now, step, target) == Some(
            readings_before(tick_after(now, step), step, target).unwrap() + 1,
        ),
        readings_before(tick_after(now, step), step, target) is Some,
{
    let d = (target - now) as nat;
    if d <= step {
        assert(steps_to_cover(d, step) == 1) by (nonlinear_arith)
            requires
                0 < d <= step,
        ;
    } else {
        let rest = (d - step) as nat;
        assert(rest / step == d / step - 1 && rest % step == d % step) by (nonlinear_arith)
            requires
                rest == d - step,
                step > 0,
                rest > 0,
        ;
    }
}

impl Suspendable for Timer {
    /// One resumption more than the readings that come before the first
    /// reading that has reached the target, where there is such a reading.
    open spec fn resumptions_left(&self) -> Option<nat> {
        if self.done() {
            Some(0)
        } else {
            match readings_before(
                self.clock().spec_now(),
                self.clock().spec_step(),
                self.delay()@,
            ) {
                Some(n) => Some(n + 1),
                None => None,
            }
        }
    }

    /// Reads the clock and polls the delay with the reading.
    fn resume(&mut self, cx: &mut Context<'_>) -> (p: Poll)
        ensures
            p == answer(old(self).delay()@, old(self).clock().spec_now()),
            final(self).delay() == old(self).delay(),
            final(self).clock().spec_now() == tick_after(
                old(self).clock().spec_now(),
                old(self).clock().spec_step(),
            ),
            final(self).clock().spec_step() == old(self).clock().spec_step(),
            final(self).done() == (p == Poll::Ready),
    {
        let now = self.clock.read();
        let p = self.delay.poll(now);
        if let Poll::Ready = p {
            self.done = true;
        }
        proof {
            if now < self.delay@ <= usize::MAX && self.clock.spec_step() > 0 {
                lemma_one_reading_fewer(now as nat, self.clock.spec_step(), self.delay@);
            }
        }
        p
    }
}

} // verus!
