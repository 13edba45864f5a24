//! The time between two steps, from the readings of a counter that runs
//! at a known frequency.
use vstd::prelude::*;
use crate::player::MAX_DT;

verus! {

/// The readings of the counter at the last two steps.
pub struct Time {
    pub last_tick_time: u64,
    pub now_tick_time: u64,
}

/// The time in which a counter of the given frequency, in counts per
/// second, runs from `from` to `to`: in milliseconds and fixed point,
/// rounded down, and no longer than [`MAX_DT`].
pub open spec fn elapsed(from: u64, to: u64, frequency: u64) -> int {
    let millis = ((to - from) * 1_000_000_000) / (frequency as int);
    if millis > MAX_DT {
        MAX_DT as int
    } else {
        millis
    }
}

impl Time {
    /// A clock that starts at the reading `counter`.
    pub fn new(counter: u64) -> (t: Time)
        ensures
            t.last_tick_time == 0,
            t.now_tick_time == counter,
    {
        Time { last_tick_time: 0, now_tick_time: counter }
    }

    /// One step: `counter` is the reading of the counter now, `frequency`
    /// its counts per second. Gives the time since the step before.
    pub fn tick(&mut self, counter: u64, frequency: u64) -> (dt: i64)
        requires
            counter >= old(self).now_tick_time,
            frequency > 0,
        ensures
            final(self).last_tick_time == old(self).now_tick_time,
            final(self).now_tick_time == counter,
            dt == elapsed(old(self).now_tick_time, counter, frequency),
            0 <= dt <= MAX_DT,
    {
        self.last_tick_time = self.now_tick_time;
        self.now_tick_time = counter;
        let counts: u128 = (self.now_tick_time - self.last_tick_time) as u128;
        let millis: u128 = (counts * 1_000_000_000) / (frequency as u128);
        if millis > MAX_DT as u128 {
            MAX_DT
        } else {
            millis as i64
        }
    }
}

} // verus!
