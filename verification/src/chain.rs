use vstd::prelude::*;
use crate::delay::Delay;
use crate::poll::Poll;

verus! {

/// What a chain of delays asks of its driver next.
#[derive(Clone, Copy, Debug, PartialEq, Eq, Structural)]
pub enum Ask {
    /// Read the clock and step the chain with the reading, within the same
    /// resumption.
    Reading,
    /// Answer `Pending`. At the next resumption, read the clock and step the
    /// chain with the reading.
    Yield,
    /// Answer `Ready`: the chain has finished.
    Done,
}

/// How far a chain of delays has come.
pub enum Phase {
    /// The chain has not been started yet.
    Fresh,
    /// The delays before number `index` are over, and delay `index` is made
    /// from the next reading.
    Starting { index: nat },
    /// The chain waits on its delay number `index`, which is over at the tick
    /// `target`. The next reading is what that delay is polled with.
    Waiting { index: nat, target: nat },
    /// All delays are over.
    Finished,
}

/// The phase that starting a fresh chain leads to, and what the chain then
/// asks for: a reading from which to make its first delay, if it has one.
pub open spec fn started(offsets: Seq<usize>) -> (Phase, Ask) {
    if offsets.len() > 0 {
        (Phase::Starting { index: 0 }, Ask::Reading)
    } else {
        (Phase::Finished, Ask::Done)
    }
}

/// The phase that one clock reading leads to, and what the chain then asks
/// for.
///
/// A reading serves one purpose. Either a delay is made from it, which the
/// next reading polls. Or it polls the delay that the chain waits on: if the
/// delay is not over, the chain stays as it is and yields; if it is over, the
/// chain goes on to make the next delay from the next reading, or finishes.
pub open spec fn stepped(offsets: Seq<usize>, phase: Phase, reading: nat) -> (Phase, Ask)
    recommends
        phase is Starting || phase is Waiting,
{
    match phase {
        Phase::Starting { index } => (
            Phase::Waiting { index, target: reading + offsets[index as int] as nat },
            Ask::Reading,
        ),
        Phase::Waiting { index, target } => if reading < target {
            (phase, Ask::Yield)
        } else if index + 1 < offsets.len() {
            (Phase::Starting { index: index + 1 }, Ask::Reading)
        } else {
            (Phase::Finished, Ask::Done)
        },
        _ => (phase, Ask::Done),
    }
}

/// A routine that waits on one delay after another: the state machine of a
/// task that sleeps for `offsets[0]` ticks, then for `offsets[1]`, and so on,
/// and finishes when the last delay is over.
///
/// The chain reads no clock. Its driver starts it once, and then hands it one
/// clock reading with each step, as long as the chain asks for one: a delay
/// is made from one reading and polled with the next ones, and the delay
/// after it is made from a reading of its own.
pub struct DelayChain {
    offsets: Vec<usize>,
    state: State,
}

/// The state of a chain as it is stored.
#[derive(Clone, Copy, Debug)]
enum State {
    Fresh,
    Starting { index: usize },
    Waiting { index: usize, delay: Delay },
    Finished,
}

impl DelayChain {
    #[verifier::type_invariant]
    spec fn inv(&self) -> bool {
        &&& self.state matches State::Starting { index } ==> index < self.offsets@.len()
        &&& self.state matches State::Waiting { index, .. } ==> index < self.offsets@.len()
    }

    /// The lengths of the delays, in the order in which they are waited on.
    pub closed spec fn offsets(&self) -> Seq<usize> {
        self.offsets@
    }

    /// How far the chain has come.
    pub closed spec fn phase(&self) -> Phase {
        match self.state {
            State::Fresh => Phase::Fresh,
            State::Starting { index } => Phase::Starting { index: index as nat },
            State::Waiting { index, delay } => Phase::Waiting {
                index: index as nat,
                target: delay@,
            },
            State::Finished => Phase::Finished,
        }
    }

    /// Whether the chain is in step with its list of delays: the delay that
    /// it is about to make or waits on is one of the list.
    pub open spec fn wf(&self) -> bool {
        match self.phase() {
            Phase::Starting { index } => index < self.offsets().len(),
            Phase::Waiting { index, .. } => index < self.offsets().len(),
            _ => true,
        }
    }

    /// The number of delays that are over: none of a fresh chain, all of a
    /// finished one, and else those before the delay that the chain is about
    /// to make or waits on.
    pub open spec fn spec_elapsed(&self) -> nat {
        match self.phase() {
            Phase::Fresh => 0,
            Phase::Starting { index } => index,
            Phase::Waiting { index, .. } => index,
            Phase::Finished => self.offsets().len(),
        }
    }

    /// A fresh chain of delays of the given lengths.
    pub fn new(offsets: Vec<usize>) -> (chain: DelayChain)
        ensures
            chain.wf(),
            chain.offsets() == offsets@,
            chain.phase() == Phase::Fresh,
    {
        DelayChain { offsets, state: State::Fresh }
    }

    /// The number of delays in the chain.
    pub fn len(&self) -> (n: usize)
        ensures
            n == self.offsets().len(),
    {
        self.offsets.len()
    }

    /// Whether the chain has not been started yet.
    pub fn is_fresh(&self) -> (b: bool)
        ensures
            b == (self.phase() == Phase::Fresh),
    {
        match self.state {
            State::Fresh => true,
            _ => false,
        }
    }

    /// Whether the chain has finished.
    pub fn is_finished(&self) -> (b: bool)
        ensures
            b == (self.phase() == Phase::Finished),
    {
        match self.state {
            State::Finished => true,
            _ => false,
        }
    }

    /// The number of delays that are over.
    pub fn elapsed(&self) -> (n: usize)
        ensures
            self.wf(),
            n == self.spec_elapsed(),
            n <= self.offsets().len(),
    {
        proof {
            use_type_invariant(self);
        }
        match self.state {
            State::Fresh => 0,
            State::Starting { index } => index,
            State::Waiting { index, .. } => index,
            State::Finished => self.offsets.len(),
        }
    }

    /// The delay that the chain waits on, if it waits on one.
    pub fn waiting_on(&self) -> (delay: Option<Delay>)
        ensures
            match delay {
                Some(d) => self.phase() matches Phase::Waiting { target, .. } && target == d@,
                None => !(self.phase() is Waiting),
            },
    {
        match self.state {
            State::Waiting { delay, .. } => Some(delay),
            _ => None,
        }
    }

    /// Starts a fresh chain. No clock is read for that.
    ///
    /// Returns what the chain asks for: a reading, from which its first
    /// delay is made, or nothing more, if the chain has no delays and is
    /// finished with that.
    pub fn start(&mut self) -> (ask: Ask)
        requires
            old(self).phase() == Phase::Fresh,
        ensures
            final(self).wf(),
            final(self).offsets() == old(self).offsets(),
            (final(self).phase(), ask) == started(old(self).offsets()),
    {
        if self.offsets.len() > 0 {
            self.state = State::Starting { index: 0 };
            Ask::Reading
        } else {
            self.state = State::Finished;
            Ask::Done
        }
    }

    /// Takes the chain one step on, with one clock reading, and returns what
    /// the chain asks for next.
    ///
    /// The chain has to be started and not finished.
    pub fn step(&mut self, reading: usize) -> (ask: Ask)
        requires
            old(self).phase() is Starting || old(self).phase() is Waiting,
        ensures
            final(self).wf(),
            final(self).offsets() == old(self).offsets(),
            (final(self).phase(), ask) == stepped(
                old(self).offsets(),
                old(self).phase(),
                reading as nat,
            ),
    {
        proof {
            use_type_invariant(&*self);
        }
        let len = self.offsets.len();
        match self.state {
            State::Starting { index } => {
                let delay = Delay::new(reading, self.offsets[index]);
                self.state = State::Waiting { index, delay };
                Ask::Reading
            },
            State::Waiting { index, delay } => {
                if let Poll::Pending = delay.poll(reading) {
                    Ask::Yield
                } else if index + 1 < len {
                    self.state = State::Starting { index: index + 1 };
                    Ask::Reading
                } else {
                    self.state = State::Finished;
                    Ask::Done
                }
            },
            _ => Ask::Done,
        }
    }
}

/// The phase of a chain that was started and has since been stepped once with
/// each of the given clock readings, in their order.
pub open spec fn phase_after(offsets: Seq<usize>, readings: Seq<nat>) -> Phase
    decreases readings.len(),
{
    if readings.len() == 0 {
        started(offsets).0
    } else {
        stepped(offsets, phase_after(offsets, readings.drop_last()), readings.last()).0
    }
}

/// The ticks that the first `n` delays of a chain take together.
pub open spec fn span(offsets: Seq<usize>, n: nat) -> nat
    decreases n,
{
    if n == 0 {
        0
    } else {
        span(offsets, (n - 1) as nat) + offsets[n - 1] as nat
    }
}

/// Whether no reading is smaller than one before it.
pub open spec fn non_decreasing(readings: Seq<nat>) -> bool {
    forall|i: int, j: int| 0 <= i <= j < readings.len() ==> readings[i] <= readings[j]
}

/// What holds of a chain after any steps with readings that do not decrease.
/// A delay that is about to be made follows a reading that lies at least the
/// time of the delays before it behind the first reading, and the target of a
/// delay that is waited on lies at least the time of all delays up to it
/// behind the first reading. A chain that finishes with the last step
/// finishes at a reading that lies the time of all its delays behind the
/// first.
proof fn lemma_time_passed(offsets: Seq<usize>, readings: Seq<nat>)
    requires
        non_decreasing(readings),
    ensures
        phase_after(offsets, readings) != Phase::Fresh,
        phase_after(offsets, readings) matches Phase::Starting { index } ==> {
            &&& index < offsets.len()
            &&& readings.len() == 0 ==> index == 0
            &&& readings.len() > 0 ==> readings.last() >= readings[0] + span(offsets, index)
        },
        phase_after(offsets, readings) matches Phase::Waiting { index, target } ==> {
            &&& readings.len() > 0
            &&& index < offsets.len()
            &&& target >= readings[0] + span(offsets, index + 1)
        },
        readings.len() > 0 && phase_after(offsets, readings.drop_last()) != Phase::Finished
            && phase_after(offsets, readings) == Phase::Finished ==> readings.last() >= readings[0]
            + span(offsets, offsets.len()),
    decreases readings.len(),
{
    if readings.len() > 0 {
        let earlier = readings.drop_last();
        assert(non_decreasing(earlier));
        lemma_time_passed(offsets, earlier);
        if earlier.len() > 0 {
            assert(earlier[0] == readings[0]);
            assert(earlier.last() == readings[readings.len() - 2]);
            assert(readings[readings.len() - 2] <= readings[readings.len() - 1]);
        }
        if let Phase::Starting { index } = phase_after(offsets, earlier) {
            assert(span(offsets, index + 1) == span(offsets, index) + offsets[index as int]);
        }
    }
}

/// A chain takes its time. If a chain is started and stepped with readings
/// that do not decrease, and finishes with the last of them, then that
/// reading lies at least the time of all its delays behind the first: the
/// chain reports completion only after the sum of its delays has passed since
/// its first reading.
pub proof fn lemma_chain_takes_its_time(offsets: Seq<usize>, readings: Seq<nat>)
    requires
        readings.len() > 0,
        non_decreasing(readings),
        phase_after(offsets, readings.drop_last()) != Phase::Finished,
        phase_after(offsets, readings) == Phase::Finished,
    ensures
        readings.last() >= readings[0] + span(offsets, offsets.len()),
{
    lemma_time_passed(offsets, readings);
}

} // verus!
