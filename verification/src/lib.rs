//! A single-threaded cooperative task scheduler.
//!
//! A [`Runtime`] owns a first-in, first-out queue of [`Task`]s. Each task wraps
//! a [`Suspendable`] computation: a state machine that is resumed again and
//! again and answers each resumption with [`Poll::Pending`] or
//! [`Poll::Ready`]. [`Runtime::turn`] resumes the task at the head of the
//! queue and puts it back at the tail while it is pending, and
//! [`Runtime::run`] takes turns until the queue is empty. Nothing wakes a
//! task: the [`Waker`] in the [`Context`] of a resumption is inert, and a
//! pending task is revisited when its turn comes round.
//!
//! The order in which a queue is served is defined in [`schedule`], with the
//! laws that make it a round-robin order.
//!
//! [`Delay`] is the timer on which computations wait, and [`DelayChain`] is
//! the routine that waits on several delays in a row. Neither reads a clock:
//! the caller hands in each reading, one with each step of a chain. What
//! comes of it when several chains are served in rotation on one clock is
//! said in [`sleepers`]. [`Timer`] is a delay together with a simulated
//! clock, a [`StepClock`], and a computation that the scheduler can serve as
//! it is.

pub mod chain;
pub mod context;
pub mod delay;
pub mod poll;
pub mod runtime;
pub mod schedule;
pub mod sleepers;
pub mod suspend;
pub mod task;
pub mod timer;

pub use chain::{Ask, DelayChain, Phase};
pub use context::{waker, Context, Waker};
pub use delay::Delay;
pub use poll::Poll;
pub use runtime::Runtime;
pub use schedule::{Slot, Turn};
pub use suspend::Suspendable;
pub use task::Task;
pub use timer::{StepClock, Timer};
