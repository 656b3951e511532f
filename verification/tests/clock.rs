use mock_broker::clock::{micros, millis, seconds};
use mock_broker::{ClockMode, Interval, Timer, VirtualClock};

fn tasks(fired: &[Timer]) -> Vec<u64> {
    fired.iter().map(|t| t.task).collect()
}

#[test]
fn durations_are_in_nanoseconds() {
    assert_eq!(micros(1), Some(1_000));
    assert_eq!(millis(10), Some(10_000_000));
    assert_eq!(seconds(1), Some(1_000_000_000));
    assert_eq!(seconds(0), Some(0));
    assert_eq!(seconds(18_446_744_073), Some(18_446_744_073_000_000_000));
    assert_eq!(seconds(18_446_744_074), None);
    assert_eq!(millis(u64::MAX), None);
    assert_eq!(micros(u64::MAX / 1_000), Some(18_446_744_073_709_551_000));
    assert_eq!(micros(u64::MAX / 1_000 + 1), None);
}

#[test]
fn nothing_fires_until_time_is_advanced() {
    let mut clock = VirtualClock::new(ClockMode::Paused);
    assert_eq!(clock.now(), 0);
    assert_eq!(clock.mode(), ClockMode::Paused);
    clock.schedule(7, 1_000);
    assert_eq!(clock.pending(), 1);
    assert_eq!(clock.next_deadline(), Some(1_000));
    assert_eq!(clock.now(), 0);
    assert!(clock.advance(999).is_empty());
    assert_eq!(clock.now(), 999);
    assert_eq!(clock.advance(1), vec![Timer { task: 7, deadline: 1_000 }]);
    assert_eq!(clock.now(), 1_000);
    assert_eq!(clock.pending(), 0);
    assert_eq!(clock.next_deadline(), None);
}

#[test]
fn timers_fire_in_deadline_order() {
    let mut clock = VirtualClock::new(ClockMode::Paused);
    clock.schedule(1, 300);
    clock.schedule(2, 100);
    clock.schedule(3, 200);
    clock.schedule(4, 400);
    let fired = clock.advance(300);
    assert_eq!(tasks(&fired), vec![2, 3, 1]);
    assert_eq!(clock.pending(), 1);
    assert_eq!(tasks(&clock.advance(1_000)), vec![4]);
    assert_eq!(clock.now(), 1_300);
}

#[test]
fn timers_of_one_instant_fire_in_scheduling_order() {
    let mut clock = VirtualClock::new(ClockMode::Paused);
    clock.schedule(5, 50);
    clock.schedule(9, 100);
    clock.schedule(3, 100);
    clock.schedule(7, 100);
    clock.schedule(1, 150);
    clock.schedule(8, 100);
    let fired = clock.advance(100);
    assert_eq!(tasks(&fired), vec![5, 9, 3, 7, 8]);
    assert_eq!(clock.now(), 100);
    assert_eq!(clock.next_deadline(), Some(150));
}

#[test]
fn a_past_deadline_is_due_at_once_but_waits_for_the_clock() {
    let mut clock = VirtualClock::new(ClockMode::Paused);
    clock.advance(500);
    clock.schedule_at(1, 100);
    assert_eq!(clock.next_deadline(), Some(500));
    assert_eq!(clock.now(), 500);
    assert_eq!(clock.advance(0), vec![Timer { task: 1, deadline: 500 }]);
}

#[test]
fn time_does_not_run_backwards() {
    let mut clock = VirtualClock::new(ClockMode::Paused);
    clock.advance_to(1_000);
    clock.schedule(1, 10);
    assert!(clock.advance_to(200).is_empty());
    assert_eq!(clock.now(), 1_000);
    assert_eq!(clock.pending(), 1);
}

#[test]
fn fire_next_steps_through_the_deadlines() {
    let mut clock = VirtualClock::new(ClockMode::Paused);
    clock.schedule(1, 100);
    clock.schedule(2, 250);
    clock.schedule(3, 900);
    assert_eq!(clock.fire_next(50), None);
    assert_eq!(clock.now(), 0);
    assert_eq!(clock.fire_next(500), Some(Timer { task: 1, deadline: 100 }));
    assert_eq!(clock.now(), 100);
    // A task woken at 100 asks to be woken again 100 later: before task 2.
    clock.schedule(1, 100);
    assert_eq!(clock.fire_next(500), Some(Timer { task: 1, deadline: 200 }));
    assert_eq!(clock.fire_next(500), Some(Timer { task: 2, deadline: 250 }));
    assert_eq!(clock.fire_next(500), None);
    assert_eq!(clock.now(), 250);
    assert!(clock.advance_to(500).is_empty());
    assert_eq!(clock.now(), 500);
}

#[test]
fn run_until_idle_fires_everything() {
    let mut clock = VirtualClock::new(ClockMode::Paused);
    assert!(clock.run_until_idle().is_empty());
    assert_eq!(clock.now(), 0);
    clock.schedule(1, 700);
    clock.schedule(2, 30);
    clock.schedule(3, 700);
    assert_eq!(tasks(&clock.run_until_idle()), vec![2, 1, 3]);
    assert_eq!(clock.now(), 700);
    assert_eq!(clock.pending(), 0);
}

#[test]
fn cancel_drops_the_timers_of_one_task() {
    let mut clock = VirtualClock::new(ClockMode::Paused);
    clock.schedule(1, 10);
    clock.schedule(2, 20);
    clock.schedule(1, 30);
    clock.schedule(3, 40);
    assert_eq!(clock.cancel(1), 2);
    assert_eq!(clock.cancel(1), 0);
    assert_eq!(clock.now(), 0);
    assert_eq!(tasks(&clock.advance(100)), vec![2, 3]);
}

#[test]
fn a_paused_clock_ignores_the_wall_clock() {
    let mut clock = VirtualClock::new(ClockMode::Paused);
    clock.schedule(1, 10);
    assert!(clock.observe(1_000).is_empty());
    assert_eq!(clock.now(), 0);
    assert_eq!(clock.pending(), 1);
    clock.resume();
    assert_eq!(clock.mode(), ClockMode::RealTime);
    assert_eq!(tasks(&clock.observe(1_000)), vec![1]);
    assert_eq!(clock.now(), 1_000);
    clock.pause();
    clock.schedule(2, 10);
    assert!(clock.observe(5_000).is_empty());
    assert_eq!(clock.now(), 1_000);
}

#[test]
fn a_real_time_clock_follows_the_wall_clock() {
    let mut clock = VirtualClock::new(ClockMode::RealTime);
    clock.schedule(1, 100);
    clock.schedule(2, 200);
    assert!(clock.observe(99).is_empty());
    assert_eq!(tasks(&clock.observe(150)), vec![1]);
    // A reading that lies behind is not followed.
    assert!(clock.observe(120).is_empty());
    assert_eq!(clock.now(), 150);
    assert_eq!(tasks(&clock.observe(200)), vec![2]);
}

#[test]
fn interval_ticks_every_period_from_its_start() {
    let mut interval = Interval::new(500, 1_000);
    assert_eq!(interval.period(), 1_000);
    assert_eq!(interval.next_tick(), 500);
    assert_eq!(interval.tick(), 500);
    assert_eq!(interval.tick(), 1_500);
    assert_eq!(interval.tick(), 2_500);
    assert_eq!(interval.next_tick(), 3_500);
}
