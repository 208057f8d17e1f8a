//! Simulation time. One tick is one in-world day; lower-frequency systems
//! (weekly economy settlement, monthly migration, yearly demographics)
//! check the clock's boundaries rather than being ticked separately.

use vstd::prelude::*;

verus! {

pub const DAYS_PER_WEEK: u64 = 7;
pub const DAYS_PER_MONTH: u64 = 30;
pub const DAYS_PER_YEAR: u64 = 360;

#[derive(Debug, Clone, Copy, PartialEq, Eq)]
pub struct SimClock {
    /// Total elapsed days since the simulation started.
    pub tick: u64,
}

impl SimClock {
    pub fn new() -> (clock: Self)
        ensures
            clock.tick == 0,
    {
        SimClock { tick: 0 }
    }

    /// Move the clock forward by exactly one day.
    pub fn advance_one_day(&mut self)
        requires
            old(self).tick < u64::MAX,
        ensures
            final(self).tick == old(self).tick + 1,
    {
        self.tick += 1;
    }

    pub fn is_week_boundary(&self) -> (b: bool)
        ensures
            b == (self.tick % DAYS_PER_WEEK == 0),
    {
        self.tick.is_multiple_of(DAYS_PER_WEEK)
    }

    pub fn is_month_boundary(&self) -> (b: bool)
        ensures
            b == (self.tick % DAYS_PER_MONTH == 0),
    {
        self.tick.is_multiple_of(DAYS_PER_MONTH)
    }

    pub fn is_year_boundary(&self) -> (b: bool)
        ensures
            b == (self.tick % DAYS_PER_YEAR == 0),
    {
        self.tick.is_multiple_of(DAYS_PER_YEAR)
    }

    /// Whole in-world years elapsed.
    pub fn year(&self) -> (y: u64)
        ensures
            y == self.tick / DAYS_PER_YEAR,
    {
        self.tick / DAYS_PER_YEAR
    }

    /// Day within the current in-world year, `0..DAYS_PER_YEAR`.
    pub fn day_of_year(&self) -> (d: u64)
        ensures
            d == self.tick % DAYS_PER_YEAR,
            d < DAYS_PER_YEAR,
    {
        self.tick % DAYS_PER_YEAR
    }
}

impl Default for SimClock {
    fn default() -> (clock: Self)
        ensures
            clock.tick == 0,
    {
        Self::new()
    }
}

/// The year and the day of the year together recover the tick exactly:
/// `year * DAYS_PER_YEAR + day_of_year == tick`.
pub proof fn lemma_year_and_day_recompose_tick(clock: SimClock)
    ensures
        (clock.tick / DAYS_PER_YEAR) * DAYS_PER_YEAR + clock.tick % DAYS_PER_YEAR == clock.tick,
        clock.tick % DAYS_PER_YEAR < DAYS_PER_YEAR,
{
    vstd::arithmetic::div_mod::lemma_fundamental_div_mod(clock.tick as int, DAYS_PER_YEAR as int);
}

/// Every year boundary is also a month boundary (a year is a whole number of
/// months), so monthly systems always run on the day yearly ones do.
pub proof fn lemma_year_boundary_is_month_boundary(clock: SimClock)
    ensures
        clock.tick % DAYS_PER_YEAR == 0 ==> clock.tick % DAYS_PER_MONTH == 0,
{
    if clock.tick % DAYS_PER_YEAR == 0 {
        let q = clock.tick / DAYS_PER_YEAR;
        vstd::arithmetic::div_mod::lemma_fundamental_div_mod(clock.tick as int, DAYS_PER_YEAR as int);
        assert(clock.tick == q * 360);
        assert(clock.tick == (q * 12) * 30) by (nonlinear_arith)
            requires clock.tick == q * 360;
        vstd::arithmetic::div_mod::lemma_mod_multiples_basic((q * 12) as int, 30);
    }
}

/// Boundaries recur with their period: from a boundary of a period (a
/// week, a month or a year), `k` days later is a boundary again exactly
/// when `k` is a whole number of periods.
pub proof fn lemma_boundaries_recur_with_their_period(clock: SimClock, k: u64, period: u64)
    requires
        period == DAYS_PER_WEEK || period == DAYS_PER_MONTH || period == DAYS_PER_YEAR,
        clock.tick % period == 0,
    ensures
        ((clock.tick + k) % (period as int) == 0) == (k % period == 0),
{
    vstd::arithmetic::div_mod::lemma_add_mod_noop(clock.tick as int, k as int, period as int);
    vstd::arithmetic::div_mod::lemma_mod_twice(k as int, period as int);
}

} // verus!
