//! The tick scheduler: it decides, from the time that has passed, whether the
//! update engine runs in this frame. At most one tick is taken per check;
//! ticks that were missed are not made up for.

use vstd::prelude::*;
use crate::particle_manager::ParticleManager;
use crate::simulate::step;

verus! {

/// The nanoseconds in one second.
pub const NANOS_PER_SECOND: u64 = 1_000_000_000;

/// The time from `last` to `now`, zero where `now` lies before `last`.
pub open spec fn elapsed(last: u64, now: u64) -> int {
    if now >= last {
        now - last
    } else {
        0
    }
}

/// The time of the last tick and the interval between ticks, in nanoseconds
/// of a clock that the caller reads.
pub struct SimulationClock {
    last_update: u64,
    update_interval: u64,
}

impl SimulationClock {
    /// The time of the last tick.
    pub closed spec fn spec_last_update(&self) -> u64 {
        self.last_update
    }

    /// The least time between two ticks.
    pub closed spec fn spec_update_interval(&self) -> u64 {
        self.update_interval
    }

    /// A tick is due at `now`: at least the interval has passed since the
    /// last one.
    pub open spec fn due(&self, now: u64) -> bool {
        elapsed(self.spec_last_update(), now) >= self.spec_update_interval()
    }

    /// A clock whose last tick was at `now`, with `interval` between ticks.
    pub fn new(now: u64, interval: u64) -> (clock: Self)
        ensures
            clock.spec_last_update() == now,
            clock.spec_update_interval() == interval,
    {
        SimulationClock { last_update: now, update_interval: interval }
    }

    /// The time of the last tick.
    #[verifier::when_used_as_spec(spec_last_update)]
    pub fn last_update(&self) -> (t: u64)
        ensures
            t == self.spec_last_update(),
    {
        self.last_update
    }

    /// The least time between two ticks.
    #[verifier::when_used_as_spec(spec_update_interval)]
    pub fn update_interval(&self) -> (t: u64)
        ensures
            t == self.spec_update_interval(),
    {
        self.update_interval
    }

    /// Sets the interval between ticks to a nanosecond count.
    pub fn set_update_interval(&mut self, interval: u64)
        ensures
            final(self).spec_update_interval() == interval,
            final(self).spec_last_update() == old(self).spec_last_update(),
    {
        self.update_interval = interval;
    }

    /// Sets the rate to `updates_per_second` ticks per second: the interval
    /// becomes that fraction of a second, in whole nanoseconds.
    pub fn set_simulation_speed(&mut self, updates_per_second: u32)
        requires
            updates_per_second > 0,
        ensures
            final(self).spec_update_interval() == NANOS_PER_SECOND as int / updates_per_second as int,
            final(self).spec_last_update() == old(self).spec_last_update(),
    {
        self.update_interval = NANOS_PER_SECOND / (updates_per_second as u64);
    }

    /// Says whether a tick is due at `now`.
    pub fn is_due(&self, now: u64) -> (yes: bool)
        ensures
            yes == self.due(now),
    {
        let passed: u64 = if now >= self.last_update {
            now - self.last_update
        } else {
            0
        };
        passed >= self.update_interval
    }

    /// Checks the clock at `now`. If a tick is due, the answer is `true` and
    /// the time of the last tick becomes `now`; else the clock stays as it
    /// is.
    pub fn tick(&mut self, now: u64) -> (run: bool)
        ensures
            run == old(self).due(now),
            final(self).spec_last_update() == (if run {
                now
            } else {
                old(self).spec_last_update()
            }),
            final(self).spec_update_interval() == old(self).spec_update_interval(),
    {
        let run: bool = self.is_due(now);
        if run {
            self.last_update = now;
        }
        run
    }

    /// One frame of the simulation at `now`: if a tick is due, the grid is
    /// advanced by exactly one tick, however long ago the last one was, and
    /// the answer is `true`; else the grid and the clock stay as they are.
    pub fn advance(&mut self, grid: &mut ParticleManager, now: u64) -> (run: bool)
        requires
            old(grid).wf(),
        ensures
            run == old(self).due(now),
            final(self).spec_last_update() == (if run {
                now
            } else {
                old(self).spec_last_update()
            }),
            final(self).spec_update_interval() == old(self).spec_update_interval(),
            final(grid).wf(),
            final(grid).cells() == (if run {
                step(
                    old(grid).cells(),
                    old(grid).spec_width() as int,
                    old(grid).spec_height() as int,
                )
            } else {
                old(grid).cells()
            }),
            final(grid).spec_width() == old(grid).spec_width(),
            final(grid).spec_height() == old(grid).spec_height(),
            final(grid).palette() == old(grid).palette(),
            final(grid).selected_index() == old(grid).selected_index(),
    {
        let run: bool = self.tick(now);
        if run {
            grid.simulate_particles();
        }
        run
    }
}

} // verus!
