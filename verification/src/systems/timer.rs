//! The turn clock: how many turns a run of frames releases.

use crate::components::TickTimer;
use vstd::arithmetic::div_mod::{lemma_basic_div, lemma_div_is_ordered, lemma_div_pos_is_pos,
    lemma_fundamental_div_mod, lemma_fundamental_div_mod_converse, lemma_mod_bound,
    lemma_small_mod};
use vstd::prelude::*;

verus! {

/// The clock after a frame of `delta` nanoseconds: the timer has advanced,
/// and the counter has grown by the number of intervals that ended, up to
/// `u32::MAX`.
pub open spec fn ticked(clock: TickTimer, delta: u64) -> TickTimer {
    let timer = clock.timer.ticked(delta);
    TickTimer {
        timer,
        count: if clock.count + timer.times_finished_this_tick > u32::MAX {
            u32::MAX
        } else {
            (clock.count + timer.times_finished_this_tick) as u32
        },
    }
}

/// The clock after `frames` frames of `delta` nanoseconds each.
pub open spec fn after_frames(clock: TickTimer, delta: u64, frames: nat) -> TickTimer
    decreases frames,
{
    if frames == 0 {
        clock
    } else {
        ticked(after_frames(clock, delta, (frames - 1) as nat), delta)
    }
}

/// On how many of `frames` frames of `delta` nanoseconds each the clock
/// releases a turn.
pub open spec fn frames_with_turn(clock: TickTimer, delta: u64, frames: nat) -> nat
    decreases frames,
{
    if frames == 0 {
        0
    } else {
        let earlier = frames_with_turn(clock, delta, (frames - 1) as nat);
        if after_frames(clock, delta, frames).timer.times_finished_this_tick > 0 {
            earlier + 1
        } else {
            earlier
        }
    }
}

/// Advances the turn clock by one frame of `delta` nanoseconds.
pub fn tick(delta: u64, tick_timer: &mut TickTimer)
    ensures
        *final(tick_timer) == ticked(*old(tick_timer), delta),
{
    tick_timer.timer.tick(delta);
    let finished = tick_timer.timer.times_finished_this_tick;
    tick_timer.count = if finished > u32::MAX - tick_timer.count {
        u32::MAX
    } else {
        tick_timer.count + finished
    };
}

/// Adding `delta` to a time splits into the whole intervals already passed
/// and what the rest of the last interval makes of `delta`.
proof fn lemma_add_to_time(passed: int, delta: int, t: int)
    requires
        0 <= passed,
        0 <= delta,
        0 < t,
    ensures
        (passed + delta) / t == passed / t + (passed % t + delta) / t,
        (passed + delta) % t == (passed % t + delta) % t,
{
    let q = passed / t;
    let e = passed % t;
    lemma_fundamental_div_mod(passed, t);
    lemma_mod_bound(passed, t);
    let k = (e + delta) / t;
    let r = (e + delta) % t;
    lemma_fundamental_div_mod(e + delta, t);
    lemma_mod_bound(e + delta, t);
    assert(passed + delta == (q + k) * t + r) by (nonlinear_arith)
        requires
            passed == t * q + e,
            e + delta == t * k + r,
    ;
    lemma_fundamental_div_mod_converse(passed + delta, t, q + k, r);
}

/// Over any number of frames of equal length the turn counter grows by the
/// whole number of intervals that fit into the time that has passed, as long
/// as the counter can hold it. For a clock at the start of an interval that is
/// `frames * delta / duration`, rounded down.
pub proof fn lemma_turns_after_frames(clock: TickTimer, delta: u64, frames: nat)
    requires
        clock.timer.running(),
        clock.count + (clock.timer.elapsed + frames * delta) / (clock.timer.duration as int)
            <= u32::MAX,
    ensures
        after_frames(clock, delta, frames).timer.running(),
        after_frames(clock, delta, frames).timer.duration == clock.timer.duration,
        after_frames(clock, delta, frames).timer.elapsed == (clock.timer.elapsed + frames * delta) % (
        clock.timer.duration as int),
        after_frames(clock, delta, frames).count == clock.count + (clock.timer.elapsed + frames
            * delta) / (clock.timer.duration as int),
        clock.timer.elapsed == 0 ==> after_frames(clock, delta, frames).count == clock.count + (
        frames * delta) / (clock.timer.duration as int),
    decreases frames,
{
    let t = clock.timer.duration as int;
    let e0 = clock.timer.elapsed as int;
    if frames == 0 {
        assert(frames * delta == 0) by (nonlinear_arith)
            requires
                frames == 0,
        ;
        lemma_basic_div(e0, t);
        lemma_small_mod(e0 as nat, t as nat);
    } else {
        let m = (frames - 1) as nat;
        let s_prev = e0 + m * delta;
        let s = e0 + frames * delta;
        assert(s == s_prev + delta) by (nonlinear_arith)
            requires
                s == e0 + frames * delta,
                s_prev == e0 + (frames - 1) * delta,
                m == frames - 1,
        ;
        assert(0 <= m * delta) by (nonlinear_arith)
            requires
                0 <= m,
                0 <= delta,
        ;
        lemma_div_is_ordered(s_prev, s, t);
        lemma_div_pos_is_pos(s_prev, t);
        lemma_turns_after_frames(clock, delta, m);
        let before = after_frames(clock, delta, m);
        let e = before.timer.elapsed as int;
        lemma_add_to_time(s_prev, delta as int, t);
        lemma_mod_bound(e + delta, t);
        lemma_div_pos_is_pos(e + delta, t);
    }
}

/// With frames no longer than the interval, a turn is released on exactly as
/// many frames as the counter grows by: never on more.
pub proof fn lemma_one_turn_per_count(clock: TickTimer, delta: u64, frames: nat)
    requires
        clock.timer.running(),
        delta <= clock.timer.duration,
        clock.count + (clock.timer.elapsed + frames * delta) / (clock.timer.duration as int)
            <= u32::MAX,
    ensures
        frames_with_turn(clock, delta, frames) == after_frames(clock, delta, frames).count
            - clock.count,
        frames_with_turn(clock, delta, frames) == (clock.timer.elapsed + frames * delta) / (
        clock.timer.duration as int),
    decreases frames,
{
    let t = clock.timer.duration as int;
    let e0 = clock.timer.elapsed as int;
    lemma_turns_after_frames(clock, delta, frames);
    if frames == 0 {
        assert(frames * delta == 0) by (nonlinear_arith)
            requires
                frames == 0,
        ;
        lemma_basic_div(e0, t);
    } else {
        let m = (frames - 1) as nat;
        let s_prev = e0 + m * delta;
        let s = e0 + frames * delta;
        assert(s == s_prev + delta) by (nonlinear_arith)
            requires
                s == e0 + frames * delta,
                s_prev == e0 + (frames - 1) * delta,
                m == frames - 1,
        ;
        assert(0 <= m * delta) by (nonlinear_arith)
            requires
                0 <= m,
                0 <= delta,
        ;
        lemma_div_is_ordered(s_prev, s, t);
        lemma_div_pos_is_pos(s_prev, t);
        lemma_turns_after_frames(clock, delta, m);
        lemma_one_turn_per_count(clock, delta, m);
        let before = after_frames(clock, delta, m);
        let e = before.timer.elapsed as int;
        let k = (e + delta) / t;
        assert(0 <= k <= 1) by {
            lemma_div_is_ordered(e + delta, 2 * t - 1, t);
            lemma_fundamental_div_mod_converse(2 * t - 1, t, 1, t - 1);
            lemma_div_pos_is_pos(e + delta, t);
        }
        lemma_add_to_time(s_prev, delta as int, t);
    }
}

} // verus!
