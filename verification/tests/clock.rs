use anarchy2090::components::{TickTimer, Timer, TURN_INTERVAL};
use anarchy2090::systems::timer::tick;

fn clock(interval: u64) -> TickTimer {
    TickTimer { timer: Timer::repeating(interval), count: 0 }
}

#[test]
fn default_clock_turns_every_two_seconds() {
    let c = TickTimer::default();
    assert_eq!(TURN_INTERVAL, 2_000_000_000);
    assert_eq!(c.timer, Timer { duration: TURN_INTERVAL, elapsed: 0, times_finished_this_tick: 0 });
    assert_eq!(c.count, 0);
    assert!(!c.timer.just_finished());
}

#[test]
fn timer_carries_the_rest_into_the_next_interval() {
    let mut t = Timer::repeating(10);
    t.tick(4);
    assert_eq!(t, Timer { duration: 10, elapsed: 4, times_finished_this_tick: 0 });
    assert!(!t.just_finished());
    t.tick(7);
    assert_eq!(t, Timer { duration: 10, elapsed: 1, times_finished_this_tick: 1 });
    assert!(t.just_finished());
    t.tick(0);
    assert_eq!(t, Timer { duration: 10, elapsed: 1, times_finished_this_tick: 0 });
    t.tick(39);
    assert_eq!(t, Timer { duration: 10, elapsed: 0, times_finished_this_tick: 4 });
}

#[test]
fn timer_without_length_finishes_on_every_tick() {
    let mut t = Timer::repeating(0);
    t.tick(5);
    assert_eq!(t, Timer { duration: 0, elapsed: 0, times_finished_this_tick: u32::MAX });
    let mut c = clock(0);
    tick(1, &mut c);
    assert_eq!(c.count, u32::MAX);
    tick(1, &mut c);
    assert_eq!(c.count, u32::MAX);
}

#[test]
fn timer_takes_the_largest_arguments() {
    let mut t = Timer { duration: u64::MAX, elapsed: u64::MAX - 1, times_finished_this_tick: 0 };
    t.tick(u64::MAX);
    assert_eq!(t.times_finished_this_tick, 1);
    assert_eq!(t.elapsed, u64::MAX - 1);
    let mut fast = Timer::repeating(1);
    fast.tick(u64::MAX);
    assert_eq!(fast.times_finished_this_tick, u32::MAX);
    assert_eq!(fast.elapsed, 0);
}

#[test]
fn counter_grows_by_whole_intervals_passed() {
    for (interval, delta, frames) in
        [(2000u64, 16u64, 1000u64), (10, 3, 7), (10, 10, 5), (7, 1, 100), (100, 99, 3), (5, 5, 1)]
    {
        let mut c = clock(interval);
        let mut turns = 0u64;
        for n in 1..=frames {
            tick(delta, &mut c);
            if c.timer.just_finished() {
                turns += 1;
            }
            assert_eq!(c.count as u64, n * delta / interval);
            assert_eq!(c.timer.elapsed, n * delta % interval);
        }
        assert_eq!(c.count as u64, frames * delta / interval);
        assert_eq!(turns, frames * delta / interval);
    }
}

#[test]
fn long_frame_counts_every_interval_but_releases_one_turn() {
    let mut c = clock(10);
    tick(20, &mut c);
    assert_eq!(c.count, 2);
    assert!(c.timer.just_finished());
    assert_eq!(c.timer.times_finished_this_tick, 2);
    tick(25, &mut c);
    assert_eq!(c.count, 4);
    assert_eq!(c.timer.elapsed, 5);
}

#[test]
fn counter_stops_at_its_largest_value() {
    let mut c = TickTimer { timer: Timer::repeating(1), count: u32::MAX - 1 };
    tick(5, &mut c);
    assert_eq!(c.count, u32::MAX);
}
