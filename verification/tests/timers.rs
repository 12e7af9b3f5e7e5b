use coop_runtime::{waker, Context, Poll, Runtime, StepClock, Suspendable, Timer, Turn};

fn resume_until_ready(timer: &mut Timer) -> usize {
    let handle = waker();
    let mut cx = Context::from_waker(&handle);
    let mut resumptions = 1;
    while timer.resume(&mut cx) == Poll::Pending {
        assert!(!timer.is_done());
        resumptions += 1;
        assert!(resumptions < 10_000);
    }
    assert!(timer.is_done());
    resumptions
}

#[test]
fn step_clock_advances_by_its_step_with_each_reading() {
    let mut clock = StepClock::new(40, 15);
    assert_eq!(clock.now(), 40);
    assert_eq!(clock.step(), 15);
    assert_eq!(clock.read(), 40);
    assert_eq!(clock.now(), 55);
    assert_eq!(clock.read(), 55);
    assert_eq!(clock.read(), 70);
    assert_eq!(clock.now(), 85);
    assert_eq!(clock.step(), 15);
}

#[test]
fn step_clock_stops_at_the_last_tick() {
    let mut clock = StepClock::new(usize::MAX - 10, 7);
    assert_eq!(clock.read(), usize::MAX - 10);
    assert_eq!(clock.read(), usize::MAX - 3);
    assert_eq!(clock.read(), usize::MAX);
    assert_eq!(clock.read(), usize::MAX);
    assert_eq!(clock.now(), usize::MAX);
}

#[test]
fn step_clock_with_no_step_stands_still() {
    let mut clock = StepClock::new(9, 0);
    assert_eq!(clock.read(), 9);
    assert_eq!(clock.read(), 9);
    assert_eq!(clock.now(), 9);
}

#[test]
fn timer_is_ready_at_the_first_reading_that_has_reached_its_target() {
    // Made at tick 0 for 300 ticks. The resumptions read 100, 200, 300.
    let mut timer = Timer::new(StepClock::new(0, 100), 300);
    assert!(!timer.is_done());
    assert_eq!(resume_until_ready(&mut timer), 3);
    // Made at tick 50 for 300 ticks. The resumptions read 120, 190, 260, 330, 400.
    let mut timer = Timer::new(StepClock::new(50, 70), 300);
    assert_eq!(resume_until_ready(&mut timer), 5);
    // A step larger than the offset: the first reading is past the target.
    let mut timer = Timer::new(StepClock::new(0, 1000), 300);
    assert_eq!(resume_until_ready(&mut timer), 1);
    // No offset: ready at once.
    let mut timer = Timer::new(StepClock::new(7, 1), 0);
    assert_eq!(resume_until_ready(&mut timer), 1);
}

#[test]
fn timer_reaches_a_target_at_the_last_tick() {
    let mut timer = Timer::new(StepClock::new(usize::MAX - 10, 4), 10);
    // Readings MAX - 6, MAX - 2, MAX.
    assert_eq!(resume_until_ready(&mut timer), 3);
}

#[test]
fn timers_finish_in_the_order_of_their_offsets() {
    let clock = StepClock::new(0, 100);
    let mut rt = Runtime::new();
    rt.spawn(Timer::new(clock, 600));
    rt.spawn(Timer::new(clock, 300));
    rt.spawn(Timer::new(clock, 1000));
    let mut made = Vec::new();
    while let Some(turn) = rt.turn() {
        made.push(turn);
    }
    assert_eq!(made.len(), 6 + 3 + 10);
    let ready: Vec<usize> =
        made.iter().filter(|t| t.outcome == Poll::Ready).map(|t| t.id).collect();
    assert_eq!(ready, vec![1, 0, 2]);
    assert_eq!(made[..3], [
        Turn { id: 0, outcome: Poll::Pending },
        Turn { id: 1, outcome: Poll::Pending },
        Turn { id: 2, outcome: Poll::Pending },
    ]);
    assert_eq!(made[7], Turn { id: 1, outcome: Poll::Ready });
}

#[test]
fn run_serves_timers_until_all_are_done() {
    let clock = StepClock::new(1000, 50);
    let mut rt = Runtime::new();
    rt.spawn(Timer::new(clock, 300));
    rt.spawn(Timer::new(clock, 600));
    assert_eq!(rt.len(), 2);
    rt.run();
    assert!(rt.is_empty());
    assert_eq!(rt.turn(), None);
}
