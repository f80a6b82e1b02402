//! Generic timer: counter frequency, boot counter value and a software tick
//! count. This portable build reads a counter that runs at 1 kHz and stands
//! at 0; the platform layer has the architectural counter.

use vstd::prelude::*;

verus! {

#[derive(Debug, Clone, Copy)]
pub struct TimerInfo {
    pub frequency_hz: u64,
    pub boot_counter: u64,
    pub ticks: u64,
}

/// Timer state.
pub struct TimerDriver {
    frequency_hz: u64,
    boot_counter: u64,
    ticks: u64,
}

/// Frequency of the portable counter.
pub const PORTABLE_COUNTER_HZ: u64 = 1_000;

fn read_counter_frequency() -> (r: u64)
    ensures
        r == PORTABLE_COUNTER_HZ,
{
    1_000
}

fn read_counter() -> (r: u64)
    ensures
        r == 0,
{
    0
}

/// `a * b` clamped to `u64::MAX`.
pub open spec fn sat_mul(a: u64, b: u64) -> u64 {
    if a * b > u64::MAX {
        u64::MAX
    } else {
        (a * b) as u64
    }
}

/// `a - b` clamped at 0.
pub open spec fn sat_sub(a: u64, b: u64) -> u64 {
    if a < b {
        0
    } else {
        (a - b) as u64
    }
}

fn saturating_mul_u64(a: u64, b: u64) -> (r: u64)
    ensures
        r == sat_mul(a, b),
{
    match a.checked_mul(b) {
        Some(v) => v,
        None => u64::MAX,
    }
}

impl TimerDriver {
    /// Counter frequency in Hz (0 before `init`).
    pub closed spec fn frequency(&self) -> u64 {
        self.frequency_hz
    }

    /// Counter value at boot.
    pub closed spec fn boot_counter(&self) -> u64 {
        self.boot_counter
    }

    /// Software ticks counted.
    pub closed spec fn ticks(&self) -> u64 {
        self.ticks
    }

    /// Milliseconds since boot with the counter reading `now`.
    pub open spec fn uptime_at(&self, now: u64) -> u64 {
        if self.frequency() == 0 {
            self.ticks()
        } else {
            (sat_mul(sat_sub(now, self.boot_counter()), 1000) / self.frequency()) as u64
        }
    }

    pub fn new() -> (r: Self)
        ensures
            r.frequency() == 0,
            r.boot_counter() == 0,
            r.ticks() == 0,
    {
        TimerDriver { frequency_hz: 0, boot_counter: 0, ticks: 0 }
    }

    /// Read the counter frequency and the boot counter value; zero the ticks.
    pub fn init(&mut self)
        ensures
            final(self).frequency() == PORTABLE_COUNTER_HZ,
            final(self).boot_counter() == 0,
            final(self).ticks() == 0,
    {
        self.init_with(read_counter_frequency(), read_counter());
    }

    /// Start from a counter running at `frequency_hz` that read `counter`
    /// at boot; zero the ticks. The platform layer reads the architectural
    /// counter and hands the values in.
    pub fn init_with(&mut self, frequency_hz: u64, counter: u64)
        ensures
            final(self).frequency() == frequency_hz,
            final(self).boot_counter() == counter,
            final(self).ticks() == 0,
    {
        self.frequency_hz = frequency_hz;
        self.boot_counter = counter;
        self.ticks = 0;
    }

    /// Count one tick.
    pub fn tick(&mut self)
        requires
            old(self).ticks() < u64::MAX,
        ensures
            final(self).ticks() == old(self).ticks() + 1,
            final(self).frequency() == old(self).frequency(),
            final(self).boot_counter() == old(self).boot_counter(),
    {
        self.ticks += 1;
    }

    /// Milliseconds since boot: the tick count when no frequency is known.
    pub fn uptime_millis(&self) -> (r: u64)
        ensures
            r == self.uptime_at(0),
    {
        if self.frequency_hz == 0 {
            return self.ticks;
        }
        self.uptime_millis_at(read_counter())
    }

    /// Milliseconds since boot with the counter reading `now`: the elapsed
    /// count (0 if the counter is behind the boot value) times 1000 over
    /// the frequency, saturating; the tick count when no frequency is known.
    pub fn uptime_millis_at(&self, now: u64) -> (r: u64)
        ensures
            r == self.uptime_at(now),
    {
        if self.frequency_hz == 0 {
            return self.ticks;
        }
        let elapsed = now.saturating_sub(self.boot_counter);
        saturating_mul_u64(elapsed, 1000) / self.frequency_hz
    }

    /// Frequency, boot counter and ticks.
    pub fn info(&self) -> (r: TimerInfo)
        ensures
            r.frequency_hz == self.frequency(),
            r.boot_counter == self.boot_counter(),
            r.ticks == self.ticks(),
    {
        TimerInfo { frequency_hz: self.frequency_hz, boot_counter: self.boot_counter, ticks: self.ticks }
    }
}

/// Uptime never runs backwards: a later counter reading gives at least as
/// many milliseconds.
pub proof fn law_uptime_monotone(t: TimerDriver, a: u64, b: u64)
    requires
        a <= b,
    ensures
        t.uptime_at(a) <= t.uptime_at(b),
{
    if t.frequency() != 0 {
        let x = sat_mul(sat_sub(a, t.boot_counter()), 1000);
        let y = sat_mul(sat_sub(b, t.boot_counter()), 1000);
        assert(sat_sub(a, t.boot_counter()) <= sat_sub(b, t.boot_counter()));
        assert(x <= y) by (nonlinear_arith)
            requires
                sat_sub(a, t.boot_counter()) <= sat_sub(b, t.boot_counter()),
                x == sat_mul(sat_sub(a, t.boot_counter()), 1000),
                y == sat_mul(sat_sub(b, t.boot_counter()), 1000),
        ;
        let d = t.frequency();
        assert(x / d <= y / d) by (nonlinear_arith)
            requires
                x <= y,
                d > 0,
        ;
    }
}

/// Initialise the timer.
pub fn init(timer: &mut TimerDriver)
    ensures
        final(timer).frequency() == PORTABLE_COUNTER_HZ,
        final(timer).boot_counter() == 0,
        final(timer).ticks() == 0,
{
    timer.init();
}

/// Count one tick.
pub fn tick(timer: &mut TimerDriver)
    requires
        old(timer).ticks() < u64::MAX,
    ensures
        final(timer).ticks() == old(timer).ticks() + 1,
        final(timer).frequency() == old(timer).frequency(),
        final(timer).boot_counter() == old(timer).boot_counter(),
{
    timer.tick();
}

/// Milliseconds since boot.
pub fn uptime_millis(timer: &TimerDriver) -> (r: u64)
    ensures
        r == timer.uptime_at(0),
{
    timer.uptime_millis()
}

/// Frequency, boot counter and ticks.
pub fn get_info(timer: &TimerDriver) -> (r: TimerInfo)
    ensures
        r.frequency_hz == timer.frequency(),
        r.boot_counter == timer.boot_counter(),
        r.ticks == timer.ticks(),
{
    timer.info()
}

} // verus!
