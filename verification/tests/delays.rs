use std::cell::Cell;
use std::rc::Rc;

use coop_runtime::{Ask, Context, Delay, DelayChain, Poll, Runtime, Suspendable, Turn};

/// A clock whose readings advance by a fixed step: read number `k` returns
/// `start + k * step`. Tasks share it by cloning the handle.
#[derive(Clone)]
struct SharedClock {
    now: Rc<Cell<usize>>,
    step: usize,
    reads: Rc<Cell<usize>>,
}

impl SharedClock {
    fn new(start: usize, step: usize) -> SharedClock {
        SharedClock { now: Rc::new(Cell::new(start)), step, reads: Rc::new(Cell::new(0)) }
    }

    fn read(&self) -> usize {
        let now = self.now.get();
        self.now.set(now + self.step);
        self.reads.set(self.reads.get() + 1);
        now
    }
}

/// One resumption of a routine: starts the chain if it is fresh, and steps
/// it with a new reading as long as it asks for one. Returns the answer and
/// the targets of the delays that were made.
fn resume(chain: &mut DelayChain, clock: &SharedClock) -> (Poll, Vec<usize>) {
    let mut made = Vec::new();
    let mut ask = if chain.is_fresh() { chain.start() } else { Ask::Reading };
    while ask == Ask::Reading {
        let waited = chain.waiting_on().is_some();
        ask = chain.step(clock.read());
        if !waited {
            made.push(chain.waiting_on().unwrap().target().unwrap());
        }
    }
    (if ask == Ask::Done { Poll::Ready } else { Poll::Pending }, made)
}

/// A chain of delays as a task, on a clock that it shares with other tasks.
struct Sleeper {
    chain: DelayChain,
    clock: SharedClock,
    finished_at: Rc<Cell<Option<usize>>>,
}

impl Sleeper {
    fn new(offsets: Vec<usize>, clock: &SharedClock) -> Sleeper {
        Sleeper {
            chain: DelayChain::new(offsets),
            clock: clock.clone(),
            finished_at: Rc::new(Cell::new(None)),
        }
    }
}

impl Suspendable for Sleeper {
    fn resume(&mut self, _cx: &mut Context<'_>) -> Poll {
        let (answer, _) = resume(&mut self.chain, &self.clock);
        if answer == Poll::Ready {
            self.finished_at.set(Some(self.clock.now.get() - self.clock.step));
        }
        answer
    }
}

#[test]
fn delay_is_ready_from_its_target_on() {
    let delay = Delay::new(1000, 300);
    assert_eq!(delay.target(), Some(1300));
    assert_eq!(delay.poll(0), Poll::Pending);
    assert_eq!(delay.poll(1000), Poll::Pending);
    assert_eq!(delay.poll(1299), Poll::Pending);
    assert_eq!(delay.poll(1300), Poll::Ready);
    assert_eq!(delay.poll(1301), Poll::Ready);
    assert_eq!(delay.poll(usize::MAX), Poll::Ready);
    // Polling changes nothing.
    assert_eq!(delay.poll(1299), Poll::Pending);
    assert_eq!(delay.target(), Some(1300));
}

#[test]
fn delay_of_no_ticks_is_ready_at_once() {
    let delay = Delay::new(42, 0);
    assert_eq!(delay.target(), Some(42));
    assert_eq!(delay.poll(42), Poll::Ready);
    assert_eq!(delay.poll(41), Poll::Pending);
}

#[test]
fn delay_beyond_the_last_tick_is_never_ready() {
    let delay = Delay::new(usize::MAX, 1);
    assert_eq!(delay.target(), None);
    assert_eq!(delay.poll(usize::MAX), Poll::Pending);
    let delay = Delay::new(usize::MAX, usize::MAX);
    assert_eq!(delay.target(), None);
    assert_eq!(delay.poll(usize::MAX), Poll::Pending);
    assert_eq!(delay.poll(0), Poll::Pending);
    let delay = Delay::new(usize::MAX - 5, 5);
    assert_eq!(delay.target(), Some(usize::MAX));
    assert_eq!(delay.poll(usize::MAX - 1), Poll::Pending);
    assert_eq!(delay.poll(usize::MAX), Poll::Ready);
}

#[test]
fn delay_under_a_stepping_clock_is_ready_at_the_first_tick_that_reaches_it() {
    // Made at tick 50 for 300 ticks; the clock advances by 70 per observation.
    let made_at = 50;
    let step = 70;
    let delay = Delay::new(made_at, 300);
    let mut first_ready = None;
    for j in 0..12 {
        let now = made_at + j * step;
        let answer = delay.poll(now);
        assert_eq!(answer == Poll::Ready, now >= made_at + 300);
        if answer == Poll::Ready && first_ready.is_none() {
            first_ready = Some(j);
        }
    }
    // 4 * 70 = 280 < 300 <= 350 = 5 * 70
    assert_eq!(first_ready, Some(5));
    // A step that divides the offset reaches the target exactly.
    let delay = Delay::new(made_at, 300);
    assert_eq!(delay.poll(made_at + 2 * 100), Poll::Pending);
    assert_eq!(delay.poll(made_at + 3 * 100), Poll::Ready);
}

#[test]
fn three_delays_in_a_row_each_begin_at_a_reading_of_their_own() {
    // Read number k returns 100 * k.
    let clock = SharedClock::new(0, 100);
    let mut chain = DelayChain::new(vec![300, 400, 500]);
    assert_eq!(chain.len(), 3);
    assert!(chain.is_fresh());
    let mut answers = Vec::new();
    let mut targets = Vec::new();
    let mut over = Vec::new();
    loop {
        let (answer, made) = resume(&mut chain, &clock);
        assert!(!chain.is_fresh());
        answers.push(answer);
        targets.extend(made);
        over.push(chain.elapsed());
        if answer == Poll::Ready {
            break;
        }
        assert!(!chain.is_finished());
    }
    assert!(chain.is_finished());
    // Pending on resumptions 1 to 9, Ready on the 10th.
    assert_eq!(answers.len(), 10);
    assert!(answers[..9].iter().all(|answer| *answer == Poll::Pending));
    assert_eq!(answers[9], Poll::Ready);
    assert_eq!(targets, vec![300, 800, 1400]);
    // Readings 0, 100, ..., 1400: fifteen of them.
    assert_eq!(clock.reads.get(), 15);
    let last_reading = clock.now.get() - 100;
    assert_eq!(last_reading, 1400);
    assert!(last_reading >= 0 + 1200);
    // The delays were over one after the other: in resumptions 3, 6 and 10.
    assert_eq!(over, vec![0, 0, 1, 1, 1, 2, 2, 2, 2, 3]);
}

#[test]
fn a_delay_can_be_over_in_the_resumption_that_made_it() {
    // Read number k returns 100 * k.
    let clock = SharedClock::new(0, 100);
    let mut chain = DelayChain::new(vec![100, 300, 400]);
    let mut answers = Vec::new();
    let mut targets = Vec::new();
    let mut over = Vec::new();
    loop {
        let (answer, made) = resume(&mut chain, &clock);
        answers.push(answer);
        targets.extend(made);
        over.push(chain.elapsed());
        if answer == Poll::Ready {
            break;
        }
    }
    // Pending on resumptions 1 to 5, Ready on the 6th.
    assert_eq!(answers.len(), 6);
    assert!(answers[..5].iter().all(|answer| *answer == Poll::Pending));
    assert_eq!(targets, vec![100, 500, 1000]);
    assert_eq!(clock.reads.get(), 11);
    // The first delay is over in resumption 1, the second in resumption 3.
    assert_eq!(over, vec![1, 1, 2, 2, 2, 3]);
}

#[test]
fn chain_asks_for_what_it_needs_next() {
    let mut chain = DelayChain::new(vec![300, 400]);
    assert_eq!(chain.waiting_on().map(|d| d.target()), None);
    assert_eq!(chain.start(), Ask::Reading);
    assert!(!chain.is_fresh());
    assert_eq!(chain.elapsed(), 0);
    // The first reading makes the delay, the next ones poll it.
    assert_eq!(chain.step(0), Ask::Reading);
    assert_eq!(chain.waiting_on().unwrap().target(), Some(300));
    assert_eq!(chain.step(1), Ask::Yield);
    assert_eq!(chain.step(299), Ask::Yield);
    assert_eq!(chain.elapsed(), 0);
    // The delay is found over late, at 350, and the next one is made at 360.
    assert_eq!(chain.step(350), Ask::Reading);
    assert_eq!(chain.elapsed(), 1);
    assert!(chain.waiting_on().is_none());
    assert_eq!(chain.step(360), Ask::Reading);
    assert_eq!(chain.waiting_on().unwrap().target(), Some(760));
    assert_eq!(chain.step(759), Ask::Yield);
    assert_eq!(chain.elapsed(), 1);
    assert_eq!(chain.step(760), Ask::Done);
    assert_eq!(chain.elapsed(), 2);
    assert!(chain.is_finished());
    assert!(chain.waiting_on().is_none());
}

#[test]
fn chain_without_delays_is_ready_at_its_first_resumption() {
    let clock = SharedClock::new(5, 1);
    let mut chain = DelayChain::new(Vec::new());
    assert_eq!(chain.len(), 0);
    assert!(chain.is_fresh());
    let (answer, made) = resume(&mut chain, &clock);
    assert_eq!(answer, Poll::Ready);
    assert!(made.is_empty());
    assert!(chain.is_finished());
    assert!(!chain.is_fresh());
    assert_eq!(chain.elapsed(), 0);
    // No clock was read for it.
    assert_eq!(clock.reads.get(), 0);
}

#[test]
fn chain_passes_delays_of_no_ticks_in_one_resumption() {
    let clock = SharedClock::new(100, 1);
    let mut chain = DelayChain::new(vec![0, 0, 10, 0]);
    // Delays 0 and 1 are made and over at once; delay 2 is made at 104 and
    // polled at 105.
    let (answer, made) = resume(&mut chain, &clock);
    assert_eq!(answer, Poll::Pending);
    assert_eq!(made, vec![100, 102, 114]);
    assert_eq!(chain.elapsed(), 2);
    assert_eq!(clock.reads.get(), 6);
    for _ in 0..8 {
        assert_eq!(resume(&mut chain, &clock).0, Poll::Pending);
    }
    assert_eq!(chain.elapsed(), 2);
    // Reading 114 ends delay 2; delay 3 is made at 115 and over at 116.
    let (answer, made) = resume(&mut chain, &clock);
    assert_eq!(answer, Poll::Ready);
    assert_eq!(made, vec![115]);
    assert_eq!(chain.elapsed(), 4);
    assert_eq!(clock.reads.get(), 17);
}

#[test]
fn chain_is_not_moved_by_a_clock_that_stands_still() {
    let mut chain = DelayChain::new(vec![1]);
    assert_eq!(chain.start(), Ask::Reading);
    assert_eq!(chain.step(7), Ask::Reading);
    for _ in 0..50 {
        assert_eq!(chain.step(7), Ask::Yield);
    }
    assert_eq!(chain.elapsed(), 0);
    assert_eq!(chain.step(8), Ask::Done);
}

#[test]
fn task_chain_reports_completion_after_1200_ticks() {
    // Read number k returns 10 * k.
    let clock = SharedClock::new(0, 10);
    let sleeper = Sleeper::new(vec![300, 400, 500], &clock);
    let finished_at = Rc::clone(&sleeper.finished_at);
    let mut rt = Runtime::new();
    rt.spawn(sleeper);
    let mut resumptions = 0;
    while let Some(turn) = rt.turn() {
        resumptions += 1;
        assert_eq!(turn.id, 0);
        if turn.outcome == Poll::Pending {
            assert!(finished_at.get().is_none());
        }
    }
    // The delays are made at 0, 310 and 720, and are over at 300, 710, 1220.
    assert_eq!(finished_at.get(), Some(1220));
    assert!(finished_at.get().unwrap() >= 1200);
    assert_eq!(clock.reads.get(), 123);
    // Every resumption reads once, but for two more in the first one and in
    // each of the two that find a delay over and make the next: 123 - 5.
    assert_eq!(resumptions, 118);
    assert!(rt.is_empty());
}

#[test]
fn shorter_delay_is_ready_strictly_before_the_longer_one() {
    // Read number k returns 25 * k.
    let clock = SharedClock::new(0, 25);
    let mut rt = Runtime::new();
    rt.spawn(Sleeper::new(vec![300], &clock));
    rt.spawn(Sleeper::new(vec![600], &clock));
    let mut made = Vec::new();
    while let Some(turn) = rt.turn() {
        made.push(turn);
    }
    let short = made.iter().position(|t| *t == Turn { id: 0, outcome: Poll::Ready }).unwrap();
    let long = made.iter().position(|t| *t == Turn { id: 1, outcome: Poll::Ready }).unwrap();
    assert!(short < long);
    // Until the shorter one is ready the two take turns.
    for (k, turn) in made[..short].iter().enumerate() {
        assert_eq!(turn.id, k % 2);
        assert_eq!(turn.outcome, Poll::Pending);
    }
    // Task 0 makes its delay at 0 and polls at 25; task 1 makes its delay at
    // 50, for 650, and polls at 75. From then on turn t polls at 25 * (t + 2):
    // task 0 is ready at 300, in turn 10.
    assert_eq!(short, 10);
    // Then task 1 is alone, and is ready at 650, in turn 24.
    assert!(made[short + 1..].iter().all(|t| t.id == 1));
    assert_eq!(long, 24);
    assert_eq!(made.len(), 25);
}

#[test]
fn the_longer_delay_first_in_the_queue_is_still_ready_last() {
    // Read number k returns 100 * k.
    let clock = SharedClock::new(0, 100);
    let mut rt = Runtime::new();
    let long = Sleeper::new(vec![600], &clock);
    let short = Sleeper::new(vec![300], &clock);
    let long_at = Rc::clone(&long.finished_at);
    let short_at = Rc::clone(&short.finished_at);
    rt.spawn(long);
    rt.spawn(short);
    rt.run();
    assert!(rt.is_empty());
    // The long one makes its delay at 0 and polls at 100, 400, 600. The short
    // one makes its delay at 200, for 500, and polls at 300, 500.
    assert_eq!(short_at.get(), Some(500));
    assert_eq!(long_at.get(), Some(600));
}

#[test]
fn five_routines_run_side_by_side() {
    let clock = SharedClock::new(0, 1);
    let offsets: Vec<Vec<usize>> =
        vec![vec![100, 300, 400], vec![300, 400, 500], vec![1000], vec![300], vec![600]];
    let mut ends = Vec::new();
    let mut rt = Runtime::new();
    for list in &offsets {
        let sleeper = Sleeper::new(list.clone(), &clock);
        ends.push(Rc::clone(&sleeper.finished_at));
        rt.spawn(sleeper);
    }
    rt.run();
    assert!(rt.is_empty());
    for (list, end) in offsets.iter().zip(ends.iter()) {
        let at = end.get().unwrap();
        assert!(at >= list.iter().sum::<usize>());
    }
    let order: Vec<usize> = {
        let mut by_end: Vec<usize> = (0..5).collect();
        by_end.sort_by_key(|i| ends[*i].get().unwrap());
        by_end
    };
    assert_eq!(order, vec![3, 4, 0, 2, 1]);
}

#[test]
fn shorter_delay_is_ready_first_whatever_the_clock() {
    for start in [0usize, 1, 12_345] {
        for step in [1usize, 7, 100, 299, 300, 301, 599, 600, 1000] {
            let clock = SharedClock::new(start, step);
            let mut rt = Runtime::new();
            rt.spawn(Sleeper::new(vec![300], &clock));
            rt.spawn(Sleeper::new(vec![600], &clock));
            let mut made = Vec::new();
            while let Some(turn) = rt.turn() {
                made.push(turn);
            }
            let ready = |id: usize| {
                made.iter().position(|t| *t == Turn { id, outcome: Poll::Ready }).unwrap()
            };
            assert!(ready(0) < ready(1), "start {} step {}", start, step);
        }
    }
}
