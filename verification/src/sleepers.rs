//! Chains of delays that are served in rotation and read one clock.
//!
//! A chain reads no clock, and the scheduler knows of none: a task that
//! sleeps steps its chain with the readings of a clock that it shares with
//! the other tasks. This module says what comes of that when the clock
//! advances by a fixed step with each reading: what one resumption of such a
//! task does, in which order a queue of them is resumed, and that of two
//! tasks with one delay each the one with the shorter delay is ready first.

use vstd::prelude::*;
use crate::chain::{started, stepped, Ask, Phase};
use crate::poll::Poll;
use crate::schedule::Turn;

verus! {

/// A task that sleeps: its number, the lengths of its delays, and how far
/// its chain has come.
pub struct Sleeper {
    pub id: usize,
    pub offsets: Seq<usize>,
    pub phase: Phase,
}

/// The phase in which a resumption finds the chain once it has started it,
/// if it was fresh.
pub open spec fn begun(offsets: Seq<usize>, phase: Phase) -> Phase {
    if phase is Fresh {
        started(offsets).0
    } else {
        phase
    }
}

/// An upper bound on the readings that a chain takes before it yields or is
/// done: two for each delay that is not made yet, and one for a delay that is
/// waited on.
pub open spec fn readings_at_most(offsets: Seq<usize>, phase: Phase) -> nat {
    match phase {
        Phase::Starting { index } => if index < offsets.len() {
            (2 * (offsets.len() - index)) as nat
        } else {
            0
        },
        Phase::Waiting { index, .. } => if index < offsets.len() {
            (2 * (offsets.len() - index) - 1) as nat
        } else {
            0
        },
        _ => 0,
    }
}

/// One resumption of a started chain, on a clock that shows `now` and
/// advances by `step` with each reading: the chain is stepped with one
/// reading after the other until it yields or is done. The result is the
/// phase of the chain, what it asks for, and what the clock shows then.
pub open spec fn resumption(offsets: Seq<usize>, phase: Phase, now: nat, step: nat) -> (
    Phase,
    Ask,
    nat,
)
    decreases readings_at_most(offsets, phase),
{
    if readings_at_most(offsets, phase) > 0 {
        let (next, ask) = stepped(offsets, phase, now);
        if ask == Ask::Reading {
            resumption(offsets, next, now + step, step)
        } else {
            (next, ask, now + step)
        }
    } else {
        (phase, Ask::Done, now)
    }
}

/// The first `turns` resumptions that a scheduler makes of a queue of
/// sleepers on one clock: the sleeper at the head is resumed once, and goes
/// to the tail unless its chain is done.
pub open spec fn served(queue: Seq<Sleeper>, now: nat, step: nat, turns: nat) -> Seq<Turn>
    decreases turns,
{
    if turns == 0 || queue.len() == 0 {
        Seq::empty()
    } else {
        let head = queue[0];
        let (phase, ask, later) = resumption(
            head.offsets,
            begun(head.offsets, head.phase),
            now,
            step,
        );
        if ask == Ask::Done {
            seq![Turn { id: head.id, outcome: Poll::Ready }] + served(
                queue.drop_first(),
                later,
                step,
                (turns - 1) as nat,
            )
        } else {
            seq![Turn { id: head.id, outcome: Poll::Pending }] + served(
                queue.drop_first().push(Sleeper { id: head.id, offsets: head.offsets, phase }),
                later,
                step,
                (turns - 1) as nat,
            )
        }
    }
}

/// Whether the sleeper has one delay, and waits on it until `target`.
spec fn waits_until(s: Sleeper, target: nat) -> bool {
    s.offsets.len() == 1 && s.phase == (Phase::Waiting { index: 0, target })
}

/// Both sleepers wait, and the target of the long one lies more than two
/// steps behind the target of the short one. Where the long one is resumed
/// next, the reading before this one had not reached the short one's target.
proof fn lemma_both_wait(
    short: Sleeper,
    long: Sleeper,
    short_next: bool,
    now: nat,
    step: nat,
    turns: nat,
    j: int,
) -> (i: int)
    requires
        short.id != long.id,
        step > 0,
        exists|ts: nat, tl: nat|
            waits_until(short, ts) && waits_until(long, tl) && tl >= ts + 2 * step && (!short_next
                ==> now < ts + step),
        0 <= j < served(
            if short_next {
                seq![short, long]
            } else {
                seq![long, short]
            },
            now,
            step,
            turns,
        ).len(),
        served(
            if short_next {
                seq![short, long]
            } else {
                seq![long, short]
            },
            now,
            step,
            turns,
        )[j] == (Turn { id: long.id, outcome: Poll::Ready }),
    ensures
        0 <= i < j,
        served(
            if short_next {
                seq![short, long]
            } else {
                seq![long, short]
            },
            now,
            step,
            turns,
        )[i] == (Turn { id: short.id, outcome: Poll::Ready }),
    decreases turns,
{
    let (ts, tl): (nat, nat) = choose|ts: nat, tl: nat|
        waits_until(short, ts) && waits_until(long, tl) && tl >= ts + 2 * step && (!short_next
            ==> now < ts + step);
    reveal_with_fuel(resumption, 2);
    if short_next {
        let queue = seq![short, long];
        if now >= ts {
            0
        } else {
            assert(queue.drop_first().push(short) == seq![long, short]);
            let rest = served(seq![long, short], now + step, step, (turns - 1) as nat);
            assert(served(queue, now, step, turns) == seq![
                Turn { id: short.id, outcome: Poll::Pending },
            ] + rest);
            assert(rest[j - 1] == served(queue, now, step, turns)[j]);
            let i = lemma_both_wait(short, long, false, now + step, step, (turns - 1) as nat, j - 1);
            i + 1
        }
    } else {
        let queue = seq![long, short];
        assert(queue.drop_first().push(long) == seq![short, long]);
        let rest = served(seq![short, long], now + step, step, (turns - 1) as nat);
        assert(served(queue, now, step, turns) == seq![
            Turn { id: long.id, outcome: Poll::Pending },
        ] + rest);
        assert(rest[j - 1] == served(queue, now, step, turns)[j]);
        let i = lemma_both_wait(short, long, true, now + step, step, (turns - 1) as nat, j - 1);
        i + 1
    }
}

/// The shorter delay is ready first. Let two tasks stand in a queue, each
/// with one delay that it makes in its first resumption, the task in front
/// with the shorter one; and let both read one clock that advances by a
/// fixed step with each reading. Then in the resumptions that the scheduler
/// makes, one that finds the longer delay over comes behind the one that
/// finds the shorter delay over. The result is the place of the latter.
pub proof fn lemma_shorter_delay_is_ready_first(
    short: Sleeper,
    long: Sleeper,
    now: nat,
    step: nat,
    turns: nat,
    j: int,
) -> (i: int)
    requires
        short.id != long.id,
        short.phase == Phase::Fresh,
        long.phase == Phase::Fresh,
        short.offsets.len() == 1,
        long.offsets.len() == 1,
        short.offsets[0] < long.offsets[0],
        step > 0,
        0 <= j < served(seq![short, long], now, step, turns).len(),
        served(seq![short, long], now, step, turns)[j] == (Turn {
            id: long.id,
            outcome: Poll::Ready,
        }),
    ensures
        0 <= i < j,
        served(seq![short, long], now, step, turns)[i] == (Turn {
            id: short.id,
            outcome: Poll::Ready,
        }),
{
    reveal_with_fuel(resumption, 3);
    let queue = seq![short, long];
    let all = served(queue, now, step, turns);
    let ts = now + short.offsets[0] as nat;
    if now + step >= ts {
        0
    } else {
        // The short one waits; the long one is made at the third reading and
        // polled with the fourth.
        let short2 = Sleeper { phase: Phase::Waiting { index: 0, target: ts }, ..short };
        let tl = now + 2 * step + long.offsets[0] as nat;
        let long2 = Sleeper { phase: Phase::Waiting { index: 0, target: tl }, ..long };
        assert(queue.drop_first().push(short2) == seq![long, short2]);
        let rest = served(seq![long, short2], now + 2 * step, step, (turns - 1) as nat);
        assert(all == seq![Turn { id: short.id, outcome: Poll::Pending }] + rest);
        assert(rest[j - 1] == all[j]);
        assert(seq![long, short2].drop_first().push(long2) == seq![short2, long2]);
        let rest2 = served(seq![short2, long2], now + 4 * step, step, (turns - 2) as nat);
        assert(rest == seq![Turn { id: long.id, outcome: Poll::Pending }] + rest2);
        assert(rest2[j - 2] == rest[j - 1]);
        assert(waits_until(short2, ts) && waits_until(long2, tl));
        let i = lemma_both_wait(
            short2,
            long2,
            true,
            now + 4 * step,
            step,
            (turns - 2) as nat,
            j - 2,
        );
        assert(rest2[i] == all[i + 2]);
        i + 2
    }
}

} // verus!
