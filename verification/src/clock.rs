//! A fixed-timestep clock. It measures real elapsed time and reports how
//! many fixed-size simulation ticks are owed, so the simulation advances at a
//! steady rate no matter how fast the host loop runs. All durations are
//! whole nanoseconds.
use std::time::Instant;
use vstd::arithmetic::div_mod::lemma_fundamental_div_mod_converse;
use vstd::prelude::*;

verus! {

#[verifier::external_type_specification]
#[verifier::external_body]
pub struct ExInstant(std::time::Instant);

/// Reads the monotonic clock through `std::time::Instant::now`. What it
/// reads depends on when it is called, so nothing is stated of the result.
#[verifier::external_body]
fn instant_now() -> Instant {
    Instant::now()
}

/// The whole nanoseconds from the reading `earlier` to the reading `later`,
/// as `Instant::duration_since` measures them (zero when `earlier` is the
/// later of the two).
pub uninterp spec fn nanos_from(later: Instant, earlier: Instant) -> u128;

/// `std::time::Instant::duration_since`, then `Duration::as_nanos`.
/// Claimed: the result is `nanos_from` of the two readings, and so depends
/// on them alone; what span two readings are apart is left to the machine.
#[verifier::external_body]
fn nanos_between(later: &Instant, earlier: &Instant) -> (n: u128)
    ensures
        n == nanos_from(*later, *earlier),
{
    later.duration_since(*earlier).as_nanos()
}

/// Nanoseconds in one second.
pub const NANOS_PER_SEC: u64 = 1_000_000_000;

/// The time a catch-up cap keeps: unspent time plus newly elapsed time,
/// never more than `max`.
pub open spec fn capped_total(accumulated: int, elapsed: int, max: int) -> int {
    if accumulated + elapsed > max {
        max
    } else {
        accumulated + elapsed
    }
}

/// One advance of a running clock: how many ticks are owed, and how much
/// unspent time is carried into the next call.
pub open spec fn clock_step(accumulated: int, elapsed: int, tick: int, max: int) -> (int, int) {
    let total = capped_total(accumulated, elapsed, max);
    (total / tick, total % tick)
}

/// A fixed-timestep clock with a catch-up cap against the spiral of death.
pub struct Clock {
    tick_nanos: u64,
    max_catchup_ticks: u32,
    max_accumulator_nanos: u64,
    last_time: Instant,
    accumulator_nanos: u64,
}

impl Clock {
    #[verifier::type_invariant]
    spec fn inv(self) -> bool {
        &&& 0 < self.tick_nanos <= NANOS_PER_SEC
        &&& self.max_accumulator_nanos == self.tick_nanos * self.max_catchup_ticks
        &&& self.accumulator_nanos <= self.max_accumulator_nanos
        &&& self.accumulator_nanos < self.tick_nanos
    }

    /// How long one tick represents, in nanoseconds.
    pub closed spec fn tick_nanos(self) -> int {
        self.tick_nanos as int
    }

    /// The most ticks a single advance may owe.
    pub closed spec fn max_catchup_ticks(self) -> int {
        self.max_catchup_ticks as int
    }

    /// The catch-up cap: never more than this much time is owed at once.
    pub closed spec fn max_accumulator_nanos(self) -> int {
        self.max_accumulator_nanos as int
    }

    /// The clock reading taken at the last advance, or at construction.
    pub closed spec fn last_reading(self) -> Instant {
        self.last_time
    }

    /// Real time measured but not yet spent on a tick, in nanoseconds.
    pub closed spec fn accumulated_nanos(self) -> int {
        self.accumulator_nanos as int
    }

    /// Run at `tick_rate` ticks per second, refusing to replay more than
    /// `max_catchup_ticks` ticks after a stall. One tick is one second
    /// divided by `tick_rate`, in whole nanoseconds.
    pub fn new(tick_rate: u32, max_catchup_ticks: u32) -> (c: Self)
        requires
            0 < tick_rate <= NANOS_PER_SEC,
        ensures
            c.tick_nanos() == NANOS_PER_SEC as int / tick_rate as int,
            c.max_catchup_ticks() == max_catchup_ticks,
            c.max_accumulator_nanos() == c.tick_nanos() * max_catchup_ticks,
            c.accumulated_nanos() == 0,
    {
        let tick_nanos: u64 = NANOS_PER_SEC / (tick_rate as u64);
        assert(1 <= tick_nanos <= NANOS_PER_SEC) by (nonlinear_arith)
            requires
                0 < tick_rate <= NANOS_PER_SEC,
                tick_nanos == NANOS_PER_SEC as int / tick_rate as int,
        ;
        assert(tick_nanos * max_catchup_ticks <= u64::MAX) by (nonlinear_arith)
            requires
                tick_nanos <= NANOS_PER_SEC,
                max_catchup_ticks <= u32::MAX,
        ;
        Clock {
            tick_nanos,
            max_catchup_ticks,
            max_accumulator_nanos: tick_nanos * (max_catchup_ticks as u64),
            last_time: instant_now(),
            accumulator_nanos: 0,
        }
    }

    /// Account for `elapsed_nanos` of real time and return how many ticks to
    /// run now. When `running` is false nothing accumulates and no tick is
    /// owed. Otherwise the elapsed time joins the unspent time, is capped at
    /// the catch-up limit, and is spent in whole ticks; the remainder waits
    /// for the next call. The stored reading is not touched.
    pub fn advance_by(&mut self, running: bool, elapsed_nanos: u128) -> (ticks: u32)
        ensures
            final(self).last_reading() == old(self).last_reading(),
            final(self).tick_nanos() == old(self).tick_nanos(),
            final(self).max_catchup_ticks() == old(self).max_catchup_ticks(),
            final(self).max_accumulator_nanos() == old(self).max_accumulator_nanos(),
            !running ==> ticks == 0 && final(self).accumulated_nanos() == old(
                self,
            ).accumulated_nanos(),
            running ==> (ticks as int, final(self).accumulated_nanos()) == clock_step(
                old(self).accumulated_nanos(),
                elapsed_nanos as int,
                old(self).tick_nanos(),
                old(self).max_accumulator_nanos(),
            ),
            ticks <= old(self).max_catchup_ticks(),
            final(self).accumulated_nanos() < final(self).tick_nanos(),
            final(self).accumulated_nanos() <= final(self).max_accumulator_nanos(),
    {
        proof {
            use_type_invariant(&*self);
        }
        if !running {
            return 0;
        }
        let max = self.max_accumulator_nanos;
        let tick = self.tick_nanos;
        let total: u64 = if elapsed_nanos >= max as u128 {
            max
        } else {
            let sum: u128 = self.accumulator_nanos as u128 + elapsed_nanos;
            if sum > max as u128 {
                max
            } else {
                sum as u64
            }
        };
        assert(total == capped_total(
            self.accumulator_nanos as int,
            elapsed_nanos as int,
            max as int,
        ));
        let ghost mct = self.max_catchup_ticks as int;
        let mut accumulator: u64 = total;
        let mut ticks: u32 = 0;
        while accumulator >= tick
            invariant
                0 < tick,
                total <= max,
                max == tick * mct,
                0 <= mct <= u32::MAX,
                accumulator + ticks * tick == total,
            decreases accumulator,
        {
            assert(ticks + 1 <= mct) by (nonlinear_arith)
                requires
                    accumulator >= tick,
                    accumulator + ticks * tick == total,
                    total <= tick * mct,
                    tick > 0,
            ;
            assert((ticks + 1) * tick == ticks * tick + tick) by (nonlinear_arith);
            accumulator = accumulator - tick;
            ticks = ticks + 1;
        }
        proof {
            lemma_fundamental_div_mod_converse(total as int, tick as int, ticks as int, accumulator as int);
            assert(ticks <= mct) by (nonlinear_arith)
                requires
                    accumulator + ticks * tick == total,
                    total <= tick * mct,
                    tick > 0,
                    accumulator >= 0,
            ;
        }
        self.accumulator_nanos = accumulator;
        ticks
    }

    /// Advance to the clock reading `now`: the time since the stored
    /// reading is what `advance_by` accounts for, and `now` becomes the
    /// stored reading whether or not the clock is running. So a paused call
    /// drops the time that passed while paused, and unpausing resumes
    /// cleanly instead of lurching forward by the whole pause.
    pub fn advance_at(&mut self, running: bool, now: Instant) -> (ticks: u32)
        ensures
            final(self).last_reading() == now,
            final(self).tick_nanos() == old(self).tick_nanos(),
            final(self).max_catchup_ticks() == old(self).max_catchup_ticks(),
            final(self).max_accumulator_nanos() == old(self).max_accumulator_nanos(),
            !running ==> ticks == 0 && final(self).accumulated_nanos() == old(
                self,
            ).accumulated_nanos(),
            running ==> (ticks as int, final(self).accumulated_nanos()) == clock_step(
                old(self).accumulated_nanos(),
                nanos_from(now, old(self).last_reading()) as int,
                old(self).tick_nanos(),
                old(self).max_accumulator_nanos(),
            ),
            ticks <= old(self).max_catchup_ticks(),
            final(self).accumulated_nanos() < final(self).tick_nanos(),
            final(self).accumulated_nanos() <= final(self).max_accumulator_nanos(),
    {
        let elapsed = nanos_between(&now, &self.last_time);
        let ticks = self.advance_by(running, elapsed);
        proof {
            use_type_invariant(&*self);
        }
        self.last_time = now;
        ticks
    }

    /// Call once per host-loop iteration: read the clock and advance to that
    /// reading (see `advance_at`), returning how many ticks to run now. A
    /// paused call still moves the stored reading to now, so unpausing
    /// resumes cleanly.
    pub fn advance(&mut self, running: bool) -> (ticks: u32)
        ensures
            final(self).tick_nanos() == old(self).tick_nanos(),
            final(self).max_catchup_ticks() == old(self).max_catchup_ticks(),
            final(self).max_accumulator_nanos() == old(self).max_accumulator_nanos(),
            !running ==> ticks == 0 && final(self).accumulated_nanos() == old(
                self,
            ).accumulated_nanos(),
            running ==> (ticks as int, final(self).accumulated_nanos()) == clock_step(
                old(self).accumulated_nanos(),
                nanos_from(final(self).last_reading(), old(self).last_reading()) as int,
                old(self).tick_nanos(),
                old(self).max_accumulator_nanos(),
            ),
            ticks <= old(self).max_catchup_ticks(),
            final(self).accumulated_nanos() < final(self).tick_nanos(),
            final(self).accumulated_nanos() <= final(self).max_accumulator_nanos(),
    {
        let now = instant_now();
        self.advance_at(running, now)
    }
}

/// Spending time in two running advances owes exactly the ticks, and leaves
/// exactly the remainder, of one advance over the combined time, as long as
/// the catch-up cap is not reached.
pub proof fn law_advance_splits(accumulated: int, first: int, second: int, tick: int, max: int)
    requires
        0 < tick,
        0 <= accumulated,
        0 <= first,
        0 <= second,
        accumulated + first + second <= max,
    ensures
        ({
            let (t1, r1) = clock_step(accumulated, first, tick, max);
            let (t2, r2) = clock_step(r1, second, tick, max);
            let (t, r) = clock_step(accumulated, first + second, tick, max);
            t1 + t2 == t && r2 == r
        }),
{
    let (t1, r1) = clock_step(accumulated, first, tick, max);
    let (t2, r2) = clock_step(r1, second, tick, max);
    vstd::arithmetic::div_mod::lemma_fundamental_div_mod(accumulated + first, tick);
    vstd::arithmetic::div_mod::lemma_fundamental_div_mod(r1 + second, tick);
    assert(0 <= r1 < tick) by {
        vstd::arithmetic::div_mod::lemma_mod_bound(accumulated + first, tick);
    }
    assert(r1 <= accumulated + first) by {
        vstd::arithmetic::div_mod::lemma_mod_decreases((accumulated + first) as nat, tick as nat);
    }
    assert(0 <= r2 < tick) by {
        vstd::arithmetic::div_mod::lemma_mod_bound(r1 + second, tick);
    }
    assert(accumulated + first + second == (t1 + t2) * tick + r2) by (nonlinear_arith)
        requires
            accumulated + first == tick * t1 + r1,
            r1 + second == tick * t2 + r2,
    ;
    lemma_fundamental_div_mod_converse(accumulated + first + second, tick, t1 + t2, r2);
}


/// An advance spends whole ticks only: the ticks owed times the tick length,
/// plus the unspent remainder (always less than one tick), is exactly the
/// time the cap lets through.
pub proof fn law_advance_conserves_time(accumulated: int, elapsed: int, tick: int, max: int)
    requires
        0 < tick,
        0 <= accumulated,
        0 <= elapsed,
        0 <= max,
    ensures
        ({
            let (ticks, rest) = clock_step(accumulated, elapsed, tick, max);
            ticks * tick + rest == capped_total(accumulated, elapsed, max) && 0 <= rest < tick
                && 0 <= ticks
        }),
{
    let total = capped_total(accumulated, elapsed, max);
    vstd::arithmetic::div_mod::lemma_fundamental_div_mod(total, tick);
    vstd::arithmetic::div_mod::lemma_mod_bound(total, tick);
    vstd::arithmetic::div_mod::lemma_div_pos_is_pos(total, tick);
    assert((total / tick) * tick == tick * (total / tick)) by (nonlinear_arith);
}

/// The spiral-of-death guard: however long the stall, one advance owes at
/// most `max_catchup_ticks` ticks when the cap is that many ticks.
pub proof fn law_catch_up_is_capped(accumulated: int, elapsed: int, tick: int, max_catchup_ticks: int)
    requires
        0 < tick,
        0 <= accumulated,
        0 <= elapsed,
        0 <= max_catchup_ticks,
    ensures
        clock_step(accumulated, elapsed, tick, tick * max_catchup_ticks).0 <= max_catchup_ticks,
{
    let max = tick * max_catchup_ticks;
    let total = capped_total(accumulated, elapsed, max);
    assert(total <= max);
    vstd::arithmetic::div_mod::lemma_div_is_ordered(total, max, tick);
    vstd::arithmetic::div_mod::lemma_div_by_multiple(max_catchup_ticks, tick);
    assert(max / tick == max_catchup_ticks) by {
        assert(max == max_catchup_ticks * tick) by (nonlinear_arith)
            requires
                max == tick * max_catchup_ticks,
        ;
    }
}

/// Durations are whole nanoseconds: a second is 1,000,000,000 of them.
pub proof fn law_nanosecond_unit()
    ensures
        NANOS_PER_SEC == 1_000_000_000,
{
}

} // verus!
